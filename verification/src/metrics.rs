//! Container metrics read from Portainer, written as InfluxDB line-protocol
//! records, and the buffering of records on their way to InfluxDB.
//!
//! Fetching from Portainer, the floating-point figures and the writes to
//! InfluxDB are the caller's; this module shapes the records and decides
//! when a batch is sent.
use vstd::prelude::*;
use crate::text::{self, chars_of, decimal_i64, decimal_u64, parse_u64, string_of, to_lowercase};

verus! {

fn push_chars(v: &mut Vec<char>, s: &Vec<char>)
    ensures
        final(v)@ == old(v)@ + s@,
{
    let mut i: usize = 0;
    while i < s.len()
        invariant
            i <= s.len(),
            v@ == old(v)@ + s@.take(i as int),
        decreases s.len() - i,
    {
        v.push(s[i]);
        assert(old(v)@ + s@.take(i + 1) =~= (old(v)@ + s@.take(i as int)).push(s@[i as int]));
        i = i + 1;
    }
    assert(s@.take(s.len() as int) =~= s@);
}

fn push_str(v: &mut Vec<char>, s: &str)
    ensures
        final(v)@ == old(v)@ + s@,
{
    push_chars(v, &chars_of(s));
}

// ---------------------------------------------------------------- values

/// A tag value with each space escaped by a backslash.
pub open spec fn escape(s: Seq<char>) -> Seq<char>
    decreases s.len(),
{
    if s.len() == 0 {
        seq![]
    } else {
        escape(s.drop_last()) + if s.last() == ' ' {
            seq!['\\', ' ']
        } else {
            seq![s.last()]
        }
    }
}

/// Every space of an escaped value follows a backslash, so a value never
/// ends a tag early; and escaping adds exactly one character per space.
pub proof fn law_escaped_spaces(s: Seq<char>)
    ensures
        forall|i: int|
            0 <= i < escape(s).len() && #[trigger] escape(s)[i] == ' ' ==> i > 0 && escape(s)[i - 1]
                == '\\',
        escape(s).len() == s.len() + spaces(s),
    decreases s.len(),
{
    if s.len() > 0 {
        let p = s.drop_last();
        law_escaped_spaces(p);
        let e = escape(p);
        let tail = if s.last() == ' ' {
            seq!['\\', ' ']
        } else {
            seq![s.last()]
        };
        assert(escape(s) == e + tail);
        assert forall|i: int|
            0 <= i < escape(s).len() && #[trigger] escape(s)[i] == ' ' implies i > 0 && escape(s)[i
                - 1] == '\\' by {
            if i < e.len() {
                assert(escape(s)[i] == e[i]);
                assert(escape(s)[i - 1] == e[i - 1]);
            }
        }
    }
}

/// How many spaces `s` holds.
pub open spec fn spaces(s: Seq<char>) -> nat
    decreases s.len(),
{
    if s.len() == 0 {
        0
    } else {
        spaces(s.drop_last()) + if s.last() == ' ' {
            1nat
        } else {
            0nat
        }
    }
}

fn escape_chars(s: &Vec<char>) -> (r: Vec<char>)
    ensures
        r@ == escape(s@),
{
    let mut r: Vec<char> = Vec::new();
    let mut i: usize = 0;
    while i < s.len()
        invariant
            i <= s.len(),
            r@ == escape(s@.take(i as int)),
        decreases s.len() - i,
    {
        assert(s@.take(i + 1).drop_last() =~= s@.take(i as int));
        if s[i] == ' ' {
            r.push('\\');
            r.push(' ');
            assert(r@ =~= escape(s@.take(i + 1)));
        } else {
            r.push(s[i]);
            assert(r@ =~= escape(s@.take(i + 1)));
        }
        i = i + 1;
    }
    assert(s@.take(s.len() as int) =~= s@);
    r
}

/// `s` with each space escaped by a backslash, as line-protocol tags need.
pub fn escape_tag(s: &str) -> (r: String)
    ensures
        r@ == escape(s@),
{
    string_of(&escape_chars(&chars_of(s)))
}

/// A `u64` read as an `i64`: values above `i64::MAX` wrap to negatives.
pub open spec fn wrap_i64(v: u64) -> int {
    if v <= i64::MAX {
        v as int
    } else {
        v - 18446744073709551616
    }
}

fn as_i64(v: u64) -> (r: i64)
    ensures
        r == wrap_i64(v),
{
    if v <= 9223372036854775807u64 {
        v as i64
    } else {
        let low: i64 = (v - 9223372036854775808u64) as i64;
        low - 9223372036854775807i64 - 1
    }
}

/// An integer field: its name, `=`, the value read as an `i64`, and `i`.
pub open spec fn int_field(name: Seq<char>, v: u64) -> Seq<char> {
    name + seq!['='] + text::dec_int(wrap_i64(v)) + seq!['i']
}

fn push_int_field(out: &mut Vec<char>, name: &str, v: u64)
    ensures
        final(out)@ == old(out)@ + int_field(name@, v),
{
    push_str(out, name);
    out.push('=');
    push_chars(out, &decimal_i64(as_i64(v)));
    out.push('i');
    assert(out@ =~= old(out)@ + int_field(name@, v));
}

// ---------------------------------------------------------------- records

/// The container a record is about.
pub struct Target {
    pub endpoint_id: i32,
    pub endpoint_name: String,
    pub container_id: String,
    pub container_name: String,
}

/// The tags every record of a container carries.
pub open spec fn tag_set(t: Target) -> Seq<char> {
    "endpoint_id="@ + text::dec_int(t.endpoint_id as int) + ",endpoint_name="@ + escape(
        t.endpoint_name@,
    ) + ",container_id="@ + escape(t.container_id@) + ",container_name="@ + escape(
        t.container_name@,
    )
}

fn push_tags(out: &mut Vec<char>, t: &Target)
    ensures
        final(out)@ == old(out)@ + tag_set(*t),
{
    push_str(out, "endpoint_id=");
    push_chars(out, &decimal_i64(t.endpoint_id as i64));
    push_str(out, ",endpoint_name=");
    push_chars(out, &escape_chars(&chars_of(t.endpoint_name.as_str())));
    push_str(out, ",container_id=");
    push_chars(out, &escape_chars(&chars_of(t.container_id.as_str())));
    push_str(out, ",container_name=");
    push_chars(out, &escape_chars(&chars_of(t.container_name.as_str())));
    assert(out@ =~= old(out)@ + tag_set(*t));
}

/// The name a container is shown under: its first name without leading
/// slashes, or `unknown` when it has none.
pub open spec fn display_name(names: Seq<String>) -> Seq<char> {
    if names.len() == 0 {
        "unknown"@
    } else {
        text::trim_start_by(names[0]@, text::CharClass::Is('/'))
    }
}

/// The name a container with these names is shown under.
pub fn container_display_name(names: &Vec<String>) -> (r: String)
    ensures
        r@ == display_name(names@),
{
    if names.len() == 0 {
        String::from_str("unknown")
    } else {
        let cs = chars_of(names[0].as_str());
        string_of(&text::trim_start_class(&cs, text::CharClass::Is('/')))
    }
}

/// The counters of one network interface.
pub struct NetworkCounters {
    pub rx_bytes: u64,
    pub rx_packets: u64,
    pub rx_errors: u64,
    pub rx_dropped: u64,
    pub tx_bytes: u64,
    pub tx_packets: u64,
    pub tx_errors: u64,
    pub tx_dropped: u64,
}

pub open spec fn network_fields(n: NetworkCounters) -> Seq<char> {
    int_field("rx_bytes"@, n.rx_bytes) + seq![','] + int_field("rx_packets"@, n.rx_packets) + seq![
        ',',
    ] + int_field("rx_errors"@, n.rx_errors) + seq![','] + int_field("rx_dropped"@, n.rx_dropped)
        + seq![','] + int_field("tx_bytes"@, n.tx_bytes) + seq![','] + int_field(
        "tx_packets"@,
        n.tx_packets,
    ) + seq![','] + int_field("tx_errors"@, n.tx_errors) + seq![','] + int_field(
        "tx_dropped"@,
        n.tx_dropped,
    )
}

/// The record of one network interface of a container, at `timestamp`
/// nanoseconds.
pub open spec fn network_record(t: Target, interface: Seq<char>, n: NetworkCounters, timestamp: i64) -> Seq<
    char,
> {
    "docker_container_network,"@ + tag_set(t) + ",interface="@ + escape(interface) + seq![' ']
        + network_fields(n) + seq![' '] + text::dec_int(timestamp as int)
}

fn push_network_fields(out: &mut Vec<char>, n: &NetworkCounters)
    ensures
        final(out)@ == old(out)@ + network_fields(*n),
{
    push_int_field(out, "rx_bytes", n.rx_bytes);
    out.push(',');
    push_int_field(out, "rx_packets", n.rx_packets);
    out.push(',');
    push_int_field(out, "rx_errors", n.rx_errors);
    out.push(',');
    push_int_field(out, "rx_dropped", n.rx_dropped);
    out.push(',');
    push_int_field(out, "tx_bytes", n.tx_bytes);
    out.push(',');
    push_int_field(out, "tx_packets", n.tx_packets);
    out.push(',');
    push_int_field(out, "tx_errors", n.tx_errors);
    out.push(',');
    push_int_field(out, "tx_dropped", n.tx_dropped);
    assert(out@ =~= old(out)@ + network_fields(*n));
}

/// The record of one network interface of a container.
pub fn network_line(t: &Target, interface: &str, n: &NetworkCounters, timestamp: i64) -> (r: String)
    ensures
        r@ == network_record(*t, interface@, *n, timestamp),
{
    let mut out = chars_of("docker_container_network,");
    push_tags(&mut out, t);
    push_str(&mut out, ",interface=");
    push_chars(&mut out, &escape_chars(&chars_of(interface)));
    out.push(' ');
    push_network_fields(&mut out, n);
    out.push(' ');
    push_chars(&mut out, &decimal_i64(timestamp));
    assert(out@ =~= network_record(*t, interface@, *n, timestamp));
    string_of(&out)
}

/// One entry of a container's block I/O counters.
pub struct BlkioEntry {
    pub major: u64,
    pub minor: u64,
    pub op: String,
    pub value: u64,
}

/// The record of one block I/O counter of a container: tagged with its
/// device `major:minor` and its operation in lower case.
pub open spec fn blkio_record(t: Target, e: BlkioEntry, timestamp: i64) -> Seq<char> {
    blkio_record_of(t, text::lowercase(e.op@), e, timestamp)
}

/// The record of one block I/O counter whose operation reads `op`.
pub open spec fn blkio_record_of(t: Target, op: Seq<char>, e: BlkioEntry, timestamp: i64) -> Seq<char> {
    "docker_container_blkio,"@ + tag_set(t) + ",device="@ + escape(
        text::dec(e.major as nat) + seq![':'] + text::dec(e.minor as nat),
    ) + ",operation="@ + escape(op) + seq![' '] + escape("blkio_"@ + op + "_bytes"@) + seq!['=']
        + text::dec_int(wrap_i64(e.value)) + seq!['i', ' '] + text::dec_int(timestamp as int)
}

/// The record of one block I/O counter of a container, its operation
/// lower-cased.
pub fn blkio_line(t: &Target, e: &BlkioEntry, timestamp: i64) -> (r: String)
    ensures
        r@ == blkio_record(*t, *e, timestamp),
{
    let op = to_lowercase(e.op.as_str());
    blkio_line_with_op(t, op.as_str(), e, timestamp)
}

/// The record of one block I/O counter of a container whose operation,
/// already lower-cased, is `op`.
pub fn blkio_line_with_op(t: &Target, op: &str, e: &BlkioEntry, timestamp: i64) -> (r: String)
    ensures
        r@ == blkio_record_of(*t, op@, *e, timestamp),
{
    let op = chars_of(op);
    let mut device = decimal_u64(e.major);
    device.push(':');
    push_chars(&mut device, &decimal_u64(e.minor));
    let mut field = chars_of("blkio_");
    push_chars(&mut field, &op);
    push_str(&mut field, "_bytes");
    let mut out = chars_of("docker_container_blkio,");
    push_tags(&mut out, t);
    push_str(&mut out, ",device=");
    push_chars(&mut out, &escape_chars(&device));
    push_str(&mut out, ",operation=");
    push_chars(&mut out, &escape_chars(&op));
    out.push(' ');
    push_chars(&mut out, &escape_chars(&field));
    out.push('=');
    push_chars(&mut out, &decimal_i64(as_i64(e.value)));
    out.push('i');
    out.push(' ');
    push_chars(&mut out, &decimal_i64(timestamp));
    assert(device@ =~= text::dec(e.major as nat) + seq![':'] + text::dec(e.minor as nat));
    assert(field@ =~= "blkio_"@ + op@ + "_bytes"@);
    assert(out@ =~= blkio_record_of(*t, op@, *e, timestamp));
    string_of(&out)
}

/// The CPU counters of a container.
pub struct CpuCounters {
    pub total_usage: u64,
    pub usage_in_kernelmode: u64,
    pub usage_in_usermode: u64,
    pub online_cpus: u64,
    pub throttle_periods: u64,
    pub throttled_periods: u64,
    pub throttled_time: u64,
}

/// The figures of a container's record that are fractional, already
/// written out: the CPU percentage, and memory in megabytes and percent.
pub struct FractionTexts {
    pub cpu_percent: String,
    pub memory_usage_mb: String,
    pub memory_limit_mb: String,
    pub memory_percent: String,
    pub memory_active_anon_mb: String,
    pub memory_active_file_mb: String,
    pub memory_inactive_anon_mb: String,
    pub memory_inactive_file_mb: String,
    pub memory_file_mapped_mb: String,
}

pub open spec fn cpu_fields(c: CpuCounters) -> Seq<char> {
    seq![','] + int_field("cpu_total_usage"@, c.total_usage) + seq![','] + int_field(
        "cpu_kernelmode_usage"@,
        c.usage_in_kernelmode,
    ) + seq![','] + int_field("cpu_usermode_usage"@, c.usage_in_usermode) + seq![','] + int_field(
        "cpu_online_cpus"@,
        c.online_cpus,
    ) + seq![','] + int_field("cpu_throttle_periods"@, c.throttle_periods) + seq![','] + int_field(
        "cpu_throttled_periods"@,
        c.throttled_periods,
    ) + seq![','] + int_field("cpu_throttled_time"@, c.throttled_time)
}

pub open spec fn memory_fields(f: FractionTexts) -> Seq<char> {
    ",memory_usage_mb="@ + f.memory_usage_mb@ + ",memory_limit_mb="@ + f.memory_limit_mb@
        + ",memory_percent="@ + f.memory_percent@ + ",memory_active_anon_mb="@
        + f.memory_active_anon_mb@ + ",memory_active_file_mb="@ + f.memory_active_file_mb@
        + ",memory_inactive_anon_mb="@ + f.memory_inactive_anon_mb@ + ",memory_inactive_file_mb="@
        + f.memory_inactive_file_mb@ + ",memory_file_mapped_mb="@ + f.memory_file_mapped_mb@
}

/// The main record of a container: its CPU and memory figures, the number
/// of its processes where known, at `timestamp` nanoseconds.
pub open spec fn stats_record(
    t: Target,
    f: FractionTexts,
    c: CpuCounters,
    pids: Option<u64>,
    timestamp: i64,
) -> Seq<char> {
    "docker_container_stats,"@ + tag_set(t) + " cpu_percent="@ + f.cpu_percent@ + cpu_fields(c)
        + memory_fields(f) + (match pids {
        Some(p) => seq![','] + int_field("pids_current"@, p) + seq![' '],
        None => seq![],
    }) + seq![' '] + text::dec_int(timestamp as int)
}

fn push_cpu_fields(out: &mut Vec<char>, c: &CpuCounters)
    ensures
        final(out)@ == old(out)@ + cpu_fields(*c),
{
    out.push(',');
    push_int_field(out, "cpu_total_usage", c.total_usage);
    out.push(',');
    push_int_field(out, "cpu_kernelmode_usage", c.usage_in_kernelmode);
    out.push(',');
    push_int_field(out, "cpu_usermode_usage", c.usage_in_usermode);
    out.push(',');
    push_int_field(out, "cpu_online_cpus", c.online_cpus);
    out.push(',');
    push_int_field(out, "cpu_throttle_periods", c.throttle_periods);
    out.push(',');
    push_int_field(out, "cpu_throttled_periods", c.throttled_periods);
    out.push(',');
    push_int_field(out, "cpu_throttled_time", c.throttled_time);
    assert(out@ =~= old(out)@ + cpu_fields(*c));
}

fn push_memory_fields(out: &mut Vec<char>, f: &FractionTexts)
    ensures
        final(out)@ == old(out)@ + memory_fields(*f),
{
    push_str(out, ",memory_usage_mb=");
    push_str(out, f.memory_usage_mb.as_str());
    push_str(out, ",memory_limit_mb=");
    push_str(out, f.memory_limit_mb.as_str());
    push_str(out, ",memory_percent=");
    push_str(out, f.memory_percent.as_str());
    push_str(out, ",memory_active_anon_mb=");
    push_str(out, f.memory_active_anon_mb.as_str());
    push_str(out, ",memory_active_file_mb=");
    push_str(out, f.memory_active_file_mb.as_str());
    push_str(out, ",memory_inactive_anon_mb=");
    push_str(out, f.memory_inactive_anon_mb.as_str());
    push_str(out, ",memory_inactive_file_mb=");
    push_str(out, f.memory_inactive_file_mb.as_str());
    push_str(out, ",memory_file_mapped_mb=");
    push_str(out, f.memory_file_mapped_mb.as_str());
    assert(out@ =~= old(out)@ + memory_fields(*f));
}

/// The main record of a container.
pub fn stats_line(
    t: &Target,
    f: &FractionTexts,
    c: &CpuCounters,
    pids: Option<u64>,
    timestamp: i64,
) -> (r: String)
    ensures
        r@ == stats_record(*t, *f, *c, pids, timestamp),
{
    let mut out = chars_of("docker_container_stats,");
    push_tags(&mut out, t);
    push_str(&mut out, " cpu_percent=");
    push_str(&mut out, f.cpu_percent.as_str());
    push_cpu_fields(&mut out, c);
    push_memory_fields(&mut out, f);
    let ghost before_pids = out@;
    match pids {
        Some(p) => {
            out.push(',');
            push_int_field(&mut out, "pids_current", p);
            out.push(' ');
        },
        None => {},
    }
    let ghost pid_part = match pids {
        Some(p) => seq![','] + int_field("pids_current"@, p) + seq![' '],
        None => Seq::<char>::empty(),
    };
    assert(out@ =~= before_pids + pid_part);
    out.push(' ');
    push_chars(&mut out, &decimal_i64(timestamp));
    assert(out@ =~= stats_record(*t, *f, *c, pids, timestamp));
    string_of(&out)
}

/// All records of one sample of a container, in the order they are sent:
/// the main record, then one per network interface, then one per block I/O
/// counter.
pub open spec fn sample_records(
    t: Target,
    f: FractionTexts,
    c: CpuCounters,
    pids: Option<u64>,
    timestamp: i64,
    networks: Seq<(String, NetworkCounters)>,
    blkio: Seq<BlkioEntry>,
) -> Seq<Seq<char>> {
    seq![stats_record(t, f, c, pids, timestamp)] + networks.map_values(
        |p: (String, NetworkCounters)| network_record(t, p.0@, p.1, timestamp),
    ) + blkio.map_values(|e: BlkioEntry| blkio_record(t, e, timestamp))
}

pub open spec fn string_views(v: Seq<String>) -> Seq<Seq<char>> {
    v.map_values(|s: String| s@)
}

/// All records of one sample of a container, in the order they are sent.
pub fn sample_lines(
    t: &Target,
    f: &FractionTexts,
    c: &CpuCounters,
    pids: Option<u64>,
    timestamp: i64,
    networks: &Vec<(String, NetworkCounters)>,
    blkio: &Vec<BlkioEntry>,
) -> (r: Vec<String>)
    ensures
        string_views(r@) == sample_records(*t, *f, *c, pids, timestamp, networks@, blkio@),
{
    let mut out: Vec<String> = Vec::new();
    out.push(stats_line(t, f, c, pids, timestamp));
    let ghost head = seq![stats_record(*t, *f, *c, pids, timestamp)];
    assert(string_views(out@) =~= head);
    let ghost nf = |p: (String, NetworkCounters)| network_record(*t, p.0@, p.1, timestamp);
    let mut i: usize = 0;
    while i < networks.len()
        invariant
            i <= networks.len(),
            nf == (|p: (String, NetworkCounters)| network_record(*t, p.0@, p.1, timestamp)),
            string_views(out@) == head + networks@.take(i as int).map_values(nf),
        decreases networks.len() - i,
    {
        let ghost before = string_views(out@);
        let line = network_line(t, networks[i].0.as_str(), &networks[i].1, timestamp);
        out.push(line);
        assert(networks@.take(i + 1).map_values(nf) =~= networks@.take(i as int).map_values(nf).push(
            nf(networks@[i as int]),
        ));
        assert(string_views(out@) =~= before.push(line@));
        i = i + 1;
    }
    assert(networks@.take(networks.len() as int) =~= networks@);
    let ghost mid = string_views(out@);
    let ghost bf = |e: BlkioEntry| blkio_record(*t, e, timestamp);
    let mut k: usize = 0;
    while k < blkio.len()
        invariant
            k <= blkio.len(),
            bf == (|e: BlkioEntry| blkio_record(*t, e, timestamp)),
            string_views(out@) == mid + blkio@.take(k as int).map_values(bf),
        decreases blkio.len() - k,
    {
        let ghost before = string_views(out@);
        let line = blkio_line(t, &blkio[k], timestamp);
        out.push(line);
        assert(blkio@.take(k + 1).map_values(bf) =~= blkio@.take(k as int).map_values(bf).push(
            bf(blkio@[k as int]),
        ));
        assert(string_views(out@) =~= before.push(line@));
        k = k + 1;
    }
    assert(blkio@.take(blkio.len() as int) =~= blkio@);
    out
}

/// What parsing `s` as an RFC 3339 time with chrono
/// (`s.parse::<DateTime<Utc>>()`) gives, read in nanoseconds since the
/// epoch: `None` where it does not parse, `Some(None)` where the time lies
/// outside the range of nanoseconds in an `i64`. It depends on `s` alone.
pub uninterp spec fn rfc3339_nanos(s: Seq<char>) -> Option<Option<i64>>;

/// Parses an RFC 3339 time with chrono and reads it with
/// `timestamp_nanos_opt`; the contract claims only that the result is the
/// one named by `rfc3339_nanos`.
#[verifier::external_body]
fn parse_time_nanos(s: &str) -> (r: Option<Option<i64>>)
    ensures
        r == rfc3339_nanos(s@),
{
    match s.parse::<chrono::DateTime<chrono::Utc>>() {
        Ok(t) => Some(t.timestamp_nanos_opt()),
        Err(_) => None,
    }
}

/// The time of a sample given how its reading time parsed: the parsed time,
/// or `now` where it did not parse; `None` where the chosen time has no
/// nanosecond value.
pub fn choose_timestamp(parsed: Option<Option<i64>>, now: Option<i64>) -> (r: Option<i64>)
    ensures
        r == match parsed {
            Some(n) => n,
            None => now,
        },
{
    match parsed {
        Some(n) => n,
        None => now,
    }
}

/// The time of a sample in nanoseconds: its reading time `read`, or `now`
/// where that does not parse; `None` where the chosen time has no
/// nanosecond value.
pub fn sample_timestamp(read: &str, now: Option<i64>) -> (r: Option<i64>)
    ensures
        r == match rfc3339_nanos(read@) {
            Some(n) => n,
            None => now,
        },
{
    choose_timestamp(parse_time_nanos(read), now)
}

/// The CPU time used since the last sample, and the system time elapsed:
/// both present only when both are positive (the CPU share is 0 otherwise).
pub open spec fn cpu_delta_pair(total: u64, pre_total: u64, system: Option<u64>, pre_system: Option<
    u64,
>) -> Option<(int, int)> {
    let cpu = wrap_i64(total) - wrap_i64(pre_total);
    let sys = wrap_i64(system.unwrap_or(0)) - wrap_i64(pre_system.unwrap_or(0));
    if sys > 0 && cpu > 0 {
        Some((cpu, sys))
    } else {
        None
    }
}

/// The CPU and system time deltas that a CPU share is computed from, where
/// both are positive.
pub fn cpu_deltas(total: u64, pre_total: u64, system: Option<u64>, pre_system: Option<u64>) -> (r:
    Option<(i64, i64)>)
    requires
        i64::MIN <= wrap_i64(total) - wrap_i64(pre_total) <= i64::MAX,
        i64::MIN <= wrap_i64(system.unwrap_or(0)) - wrap_i64(pre_system.unwrap_or(0)) <= i64::MAX,
    ensures
        match r {
            Some((c, s)) => cpu_delta_pair(total, pre_total, system, pre_system) == Some(
                (c as int, s as int),
            ),
            None => cpu_delta_pair(total, pre_total, system, pre_system) is None,
        },
{
    let cpu = as_i64(total) - as_i64(pre_total);
    let sys_now = match system {
        Some(v) => v,
        None => 0,
    };
    let sys_before = match pre_system {
        Some(v) => v,
        None => 0,
    };
    let sys = as_i64(sys_now) - as_i64(sys_before);
    if sys > 0 && cpu > 0 {
        Some((cpu, sys))
    } else {
        None
    }
}

// ---------------------------------------------------------------- Portainer

/// The URL listing the endpoints.
pub fn endpoints_url(base: &str) -> (r: String)
    ensures
        r@ == base@ + "/api/endpoints"@,
{
    text::cat(base, "/api/endpoints")
}

/// The URL listing all containers of an endpoint.
pub fn containers_url(base: &str, endpoint_id: i32) -> (r: String)
    ensures
        r@ == base@ + "/api/endpoints/"@ + text::dec_int(endpoint_id as int)
            + "/docker/containers/json?all=true"@,
{
    let mut out = chars_of(base);
    push_str(&mut out, "/api/endpoints/");
    push_chars(&mut out, &decimal_i64(endpoint_id as i64));
    push_str(&mut out, "/docker/containers/json?all=true");
    string_of(&out)
}

/// The URL of one sample of a container's statistics.
pub fn stats_url(base: &str, endpoint_id: i32, container_id: &str) -> (r: String)
    ensures
        r@ == base@ + "/api/endpoints/"@ + text::dec_int(endpoint_id as int)
            + "/docker/containers/"@ + container_id@ + "/stats?stream=false"@,
{
    let mut out = chars_of(base);
    push_str(&mut out, "/api/endpoints/");
    push_chars(&mut out, &decimal_i64(endpoint_id as i64));
    push_str(&mut out, "/docker/containers/");
    push_str(&mut out, container_id);
    push_str(&mut out, "/stats?stream=false");
    string_of(&out)
}

/// The seconds between polls: the setting, 10 where it is not set; `None`
/// where it is set to something other than a `u64`.
pub fn poll_interval_secs(setting: Option<&str>) -> (r: Option<u64>)
    ensures
        match setting {
            None => r == Some(10u64),
            Some(s) => match r {
                Some(v) => text::parse_unsigned(s@, u64::MAX as nat) == Some(v as nat),
                None => text::parse_unsigned(s@, u64::MAX as nat) is None,
            },
        },
{
    match setting {
        None => Some(10),
        Some(s) => parse_u64(&chars_of(s)),
    }
}

/// A token as read from its file: surrounding white space removed.
pub fn token_from_file(contents: &str) -> (r: String)
    ensures
        r@ == text::trim(contents@),
{
    string_of(&text::trim_ws(&chars_of(contents)))
}

// ---------------------------------------------------------------- the writer

/// Bytes of a batch that make the writer send it at once.
pub const SEND_BUFFER_SIZE: usize = 0x100000;

/// Seconds after which buffered records are sent anyway.
pub const MAX_SEND_DELAY_SEC: u64 = 30;

/// What the writer does next.
#[derive(Clone, Copy, Debug, PartialEq, Eq, Structural)]
pub enum WriterAction {
    /// Wait for more records.
    Wait,
    /// Send the buffered records.
    Flush,
    /// Stop: no record can come any more.
    Exit,
}

/// The records waiting to be sent to InfluxDB, one per line.
pub struct WriterState {
    buffer: String,
    buffer_bytes: usize,
}

impl WriterState {
    pub closed spec fn wf(self) -> bool {
        self.buffer_bytes == text::utf8_size(self.buffer@)
    }

    /// The buffered text.
    pub closed spec fn pending(self) -> Seq<char> {
        self.buffer@
    }

    /// Bytes the buffered text takes in UTF-8.
    pub closed spec fn pending_bytes(self) -> nat {
        text::utf8_size(self.buffer@)
    }

    /// A writer with nothing buffered.
    pub fn new() -> (r: WriterState)
        ensures
            r.wf(),
            r.pending() == Seq::<char>::empty(),
    {
        WriterState { buffer: String::new(), buffer_bytes: 0 }
    }

    /// Bytes the buffered text takes in UTF-8.
    pub fn pending_len(&self) -> (r: usize)
        requires
            self.wf(),
        ensures
            r == self.pending_bytes(),
    {
        self.buffer_bytes
    }

    /// Buffers `record` as a line of its own; it is time to send when the
    /// buffer holds at least `SEND_BUFFER_SIZE` bytes or the last sending
    /// was `MAX_SEND_DELAY_SEC` seconds or more ago.
    pub fn on_record(&mut self, record: &str, secs_since_send: u64) -> (r: WriterAction)
        requires
            old(self).wf(),
            old(self).pending_bytes() + text::utf8_size(record@) + 1 <= usize::MAX,
        ensures
            final(self).wf(),
            final(self).pending() == old(self).pending() + record@ + seq!['\n'],
            r == if final(self).pending_bytes() >= SEND_BUFFER_SIZE || secs_since_send
                >= MAX_SEND_DELAY_SEC {
                WriterAction::Flush
            } else {
                WriterAction::Wait
            },
    {
        let cs = chars_of(record);
        let mut i: usize = 0;
        let ghost start = self.buffer@;
        while i < cs.len()
            invariant
                i <= cs.len(),
                cs@ == record@,
                self.buffer@ == start + cs@.take(i as int),
                self.buffer_bytes == text::utf8_size(self.buffer@),
                text::utf8_size(start) + text::utf8_size(record@) + 1 <= usize::MAX,
            decreases cs.len() - i,
        {
            let c = cs[i];
            let n: usize = if (c as u32) < 0x80 {
                1
            } else if (c as u32) < 0x800 {
                2
            } else if (c as u32) < 0x10000 {
                3
            } else {
                4
            };
            proof {
                assert(start + cs@.take(i + 1) =~= (start + cs@.take(i as int)).push(c));
                assert((start + cs@.take(i + 1)).drop_last() =~= start + cs@.take(i as int));
                text::lemma_utf8_size_concat(start, cs@.take(i + 1));
                text::lemma_utf8_size_concat(cs@.take(i + 1), cs@.skip(i + 1));
                assert(cs@.take(i + 1) + cs@.skip(i + 1) =~= cs@);
            }
            text::push_char(&mut self.buffer, c);
            self.buffer_bytes = self.buffer_bytes + n;
            i = i + 1;
        }
        assert(cs@.take(cs.len() as int) =~= cs@);
        proof {
            text::lemma_utf8_size_concat(start, record@);
            assert((self.buffer@.push('\n')).drop_last() =~= self.buffer@);
        }
        text::push_char(&mut self.buffer, '\n');
        self.buffer_bytes = self.buffer_bytes + 1;
        if self.buffer_bytes >= SEND_BUFFER_SIZE || secs_since_send >= MAX_SEND_DELAY_SEC {
            WriterAction::Flush
        } else {
            WriterAction::Wait
        }
    }

    /// No record came for `MAX_SEND_DELAY_SEC` seconds: send what is buffered.
    pub fn on_timeout(&self) -> (r: WriterAction)
        ensures
            r == WriterAction::Flush,
    {
        WriterAction::Flush
    }

    /// Every sender is gone: stop.
    pub fn on_disconnected(&self) -> (r: WriterAction)
        ensures
            r == WriterAction::Exit,
    {
        WriterAction::Exit
    }

    /// The batch to send: `None` when nothing is buffered. The buffer starts
    /// over empty, whether the batch then reaches InfluxDB or not.
    pub fn take_batch(&mut self) -> (r: Option<String>)
        requires
            old(self).wf(),
        ensures
            final(self).wf(),
            final(self).pending() == Seq::<char>::empty(),
            match r {
                Some(b) => b@ == old(self).pending() && b@.len() > 0,
                None => old(self).pending().len() == 0,
            },
    {
        if self.buffer_bytes == 0 {
            proof {
                if self.buffer@.len() > 0 {
                    lemma_utf8_size_positive(self.buffer@);
                }
            }
            assert(self.buffer@ =~= Seq::<char>::empty());
            return None;
        }
        let mut batch = String::new();
        std::mem::swap(&mut batch, &mut self.buffer);
        self.buffer_bytes = 0;
        proof {
            if batch@.len() == 0 {
                assert(text::utf8_size(batch@) == 0);
            }
        }
        Some(batch)
    }
}

proof fn lemma_utf8_size_positive(s: Seq<char>)
    requires
        s.len() > 0,
    ensures
        text::utf8_size(s) > 0,
{
}

} // verus!
