//! Connection and traffic statistics for the proxy, and the page that
//! shows them. Counters wrap around on overflow, as atomic additions do.

use vstd::prelude::*;
use vstd::arithmetic::power2::pow2;

use crate::text::{decimal, digit_char, push_decimal, replace_all, spec_decimal, spec_digit_char, spec_replace, string_of};

verus! {

/// A point-in-time snapshot of all counters.
#[derive(Debug, Clone, Copy, PartialEq, Eq, Structural)]
pub struct StatsSnapshot {
    pub total_connections: u64,
    pub active_connections: u64,
    pub socks5_connections: u64,
    pub http_connections: u64,
    pub tcp_bytes_up: u64,
    pub tcp_bytes_down: u64,
    pub udp_associate_sessions: u64,
    pub udp_datagrams_in: u64,
    pub udp_datagrams_out: u64,
    pub udp_bytes_in: u64,
    pub udp_bytes_out: u64,
    pub connect_failures: u64,
}

impl Default for StatsSnapshot {
    fn default() -> (r: StatsSnapshot)
        ensures
            r == spec_zero_snapshot(),
    {
        zero_snapshot()
    }
}

/// The snapshot with every counter at zero.
pub open spec fn spec_zero_snapshot() -> StatsSnapshot {
    StatsSnapshot {
        total_connections: 0,
        active_connections: 0,
        socks5_connections: 0,
        http_connections: 0,
        tcp_bytes_up: 0,
        tcp_bytes_down: 0,
        udp_associate_sessions: 0,
        udp_datagrams_in: 0,
        udp_datagrams_out: 0,
        udp_bytes_in: 0,
        udp_bytes_out: 0,
        connect_failures: 0,
    }
}

fn zero_snapshot() -> (r: StatsSnapshot)
    ensures
        r == spec_zero_snapshot(),
{
    StatsSnapshot {
        total_connections: 0,
        active_connections: 0,
        socks5_connections: 0,
        http_connections: 0,
        tcp_bytes_up: 0,
        tcp_bytes_down: 0,
        udp_associate_sessions: 0,
        udp_datagrams_in: 0,
        udp_datagrams_out: 0,
        udp_bytes_in: 0,
        udp_bytes_out: 0,
        connect_failures: 0,
    }
}

/// The proxy-wide statistics.
pub struct Stats {
    counters: StatsSnapshot,
}

impl View for Stats {
    type V = StatsSnapshot;

    closed spec fn view(&self) -> StatsSnapshot {
        self.counters
    }
}

impl Default for Stats {
    fn default() -> (r: Stats)
        ensures
            r@ == spec_zero_snapshot(),
    {
        Stats { counters: zero_snapshot() }
    }
}

impl Stats {
    /// Statistics with every counter at zero.
    pub fn new() -> (r: Stats)
        ensures
            r@ == spec_zero_snapshot(),
    {
        Stats { counters: zero_snapshot() }
    }

    /// Renders the current statistics as an HTML page.
    pub fn render_html(&self) -> (r: String)
        ensures
            r@ == spec_stats_page(self@),
    {
        let snapshot = self.snapshot();
        let mut replacements: Vec<(&str, String)> = Vec::new();
        replacements.push(("{total_connections}", decimal(snapshot.total_connections)));
        replacements.push(("{active_connections}", decimal(snapshot.active_connections)));
        replacements.push(("{socks5_connections}", decimal(snapshot.socks5_connections)));
        replacements.push(("{http_connections}", decimal(snapshot.http_connections)));
        replacements.push(("{tcp_up}", format_bytes(snapshot.tcp_bytes_up)));
        replacements.push(("{tcp_down}", format_bytes(snapshot.tcp_bytes_down)));
        replacements.push(("{udp_associate_sessions}", decimal(snapshot.udp_associate_sessions)));
        replacements.push(("{udp_datagrams_out}", decimal(snapshot.udp_datagrams_out)));
        replacements.push(("{udp_datagrams_in}", decimal(snapshot.udp_datagrams_in)));
        replacements.push(("{udp_bytes_out}", format_bytes(snapshot.udp_bytes_out)));
        replacements.push(("{udp_bytes_in}", format_bytes(snapshot.udp_bytes_in)));
        replacements.push(("{connect_failures}", decimal(snapshot.connect_failures)));
        assert(spec_pairs_view(replacements@) =~= spec_page_replacements(self@));
        render_template(STATS_TEMPLATE, replacements.as_slice())
    }

    /// Returns a point-in-time snapshot of all statistics.
    pub fn snapshot(&self) -> (r: StatsSnapshot)
        ensures
            r == self@,
    {
        self.counters
    }

    /// Increments the total accepted connection counter.
    pub fn inc_total_connections(&mut self)
        ensures
            final(self)@ == (StatsSnapshot {
                total_connections: old(self)@.total_connections.wrapping_add(1),
                ..old(self)@
            }),
    {
        self.counters.total_connections = self.counters.total_connections.wrapping_add(1);
    }

    /// Increments the active connection counter.
    pub fn inc_active_connections(&mut self)
        ensures
            final(self)@ == (StatsSnapshot {
                active_connections: old(self)@.active_connections.wrapping_add(1),
                ..old(self)@
            }),
    {
        self.counters.active_connections = self.counters.active_connections.wrapping_add(1);
    }

    /// Decrements the active connection counter.
    pub fn dec_active_connections(&mut self)
        ensures
            final(self)@ == (StatsSnapshot {
                active_connections: old(self)@.active_connections.wrapping_sub(1),
                ..old(self)@
            }),
    {
        self.counters.active_connections = self.counters.active_connections.wrapping_sub(1);
    }

    /// Increments the SOCKS5 connection counter.
    pub fn inc_socks5_connections(&mut self)
        ensures
            final(self)@ == (StatsSnapshot {
                socks5_connections: old(self)@.socks5_connections.wrapping_add(1),
                ..old(self)@
            }),
    {
        self.counters.socks5_connections = self.counters.socks5_connections.wrapping_add(1);
    }

    /// Increments the HTTP connection counter.
    pub fn inc_http_connections(&mut self)
        ensures
            final(self)@ == (StatsSnapshot {
                http_connections: old(self)@.http_connections.wrapping_add(1),
                ..old(self)@
            }),
    {
        self.counters.http_connections = self.counters.http_connections.wrapping_add(1);
    }

    /// Adds proxied TCP byte counts for both directions.
    pub fn add_tcp_bytes(&mut self, up: u64, down: u64)
        ensures
            final(self)@ == (StatsSnapshot {
                tcp_bytes_up: old(self)@.tcp_bytes_up.wrapping_add(up),
                tcp_bytes_down: old(self)@.tcp_bytes_down.wrapping_add(down),
                ..old(self)@
            }),
    {
        self.counters.tcp_bytes_up = self.counters.tcp_bytes_up.wrapping_add(up);
        self.counters.tcp_bytes_down = self.counters.tcp_bytes_down.wrapping_add(down);
    }

    /// Increments the UDP ASSOCIATE session counter.
    pub fn inc_udp_associate_sessions(&mut self)
        ensures
            final(self)@ == (StatsSnapshot {
                udp_associate_sessions: old(self)@.udp_associate_sessions.wrapping_add(1),
                ..old(self)@
            }),
    {
        self.counters.udp_associate_sessions = self.counters.udp_associate_sessions.wrapping_add(1);
    }

    /// Increments the remote-to-client UDP datagram counter.
    pub fn inc_udp_datagrams_in(&mut self)
        ensures
            final(self)@ == (StatsSnapshot {
                udp_datagrams_in: old(self)@.udp_datagrams_in.wrapping_add(1),
                ..old(self)@
            }),
    {
        self.counters.udp_datagrams_in = self.counters.udp_datagrams_in.wrapping_add(1);
    }

    /// Increments the client-to-remote UDP datagram counter.
    pub fn inc_udp_datagrams_out(&mut self)
        ensures
            final(self)@ == (StatsSnapshot {
                udp_datagrams_out: old(self)@.udp_datagrams_out.wrapping_add(1),
                ..old(self)@
            }),
    {
        self.counters.udp_datagrams_out = self.counters.udp_datagrams_out.wrapping_add(1);
    }

    /// Adds remote-to-client UDP bytes.
    pub fn add_udp_bytes_in(&mut self, n: u64)
        ensures
            final(self)@ == (StatsSnapshot {
                udp_bytes_in: old(self)@.udp_bytes_in.wrapping_add(n),
                ..old(self)@
            }),
    {
        self.counters.udp_bytes_in = self.counters.udp_bytes_in.wrapping_add(n);
    }

    /// Adds client-to-remote UDP bytes.
    pub fn add_udp_bytes_out(&mut self, n: u64)
        ensures
            final(self)@ == (StatsSnapshot {
                udp_bytes_out: old(self)@.udp_bytes_out.wrapping_add(n),
                ..old(self)@
            }),
    {
        self.counters.udp_bytes_out = self.counters.udp_bytes_out.wrapping_add(n);
    }

    /// Increments the outbound connection failure counter.
    pub fn inc_connect_failures(&mut self)
        ensures
            final(self)@ == (StatsSnapshot {
                connect_failures: old(self)@.connect_failures.wrapping_add(1),
                ..old(self)@
            }),
    {
        self.counters.connect_failures = self.counters.connect_failures.wrapping_add(1);
    }
}

/// Law: counting a connection as active and then as closed leaves the
/// active count where it was, whatever it was.
pub proof fn lemma_active_inc_dec(x: u64)
    ensures
        x.wrapping_add(1).wrapping_sub(1) == x,
{
}

/// Law: adding two byte counts one after the other adds their sum, modulo
/// 2^64.
pub proof fn lemma_bytes_accumulate(x: u64, a: u64, b: u64)
    ensures
        x.wrapping_add(a).wrapping_add(b) == x.wrapping_add(a.wrapping_add(b)),
{
}

/// The HTML page whose placeholders the counters fill in.
pub const STATS_TEMPLATE: &'static str = "<!DOCTYPE html>
<html>
<head><meta charset=\"utf-8\"><title>tinysocks stats</title></head>
<body>
<h1>tinysocks</h1>
<table>
<tr><th>Total connections</th><td>{total_connections}</td></tr>
<tr><th>Active connections</th><td>{active_connections}</td></tr>
<tr><th>SOCKS5 connections</th><td>{socks5_connections}</td></tr>
<tr><th>HTTP connections</th><td>{http_connections}</td></tr>
<tr><th>TCP upload</th><td>{tcp_up}</td></tr>
<tr><th>TCP download</th><td>{tcp_down}</td></tr>
<tr><th>UDP ASSOCIATE sessions</th><td>{udp_associate_sessions}</td></tr>
<tr><th>UDP datagrams out</th><td>{udp_datagrams_out}</td></tr>
<tr><th>UDP datagrams in</th><td>{udp_datagrams_in}</td></tr>
<tr><th>UDP bytes out</th><td>{udp_bytes_out}</td></tr>
<tr><th>UDP bytes in</th><td>{udp_bytes_in}</td></tr>
<tr><th>Connect failures</th><td>{connect_failures}</td></tr>
</table>
</body>
</html>
";

/// The values of placeholder/replacement pairs.
pub open spec fn spec_pairs_view(pairs: Seq<(&str, String)>) -> Seq<(Seq<char>, Seq<char>)> {
    Seq::new(pairs.len(), |i: int| (pairs[i].0@, pairs[i].1@))
}

/// A template with each placeholder replaced in turn by its value.
pub open spec fn spec_render_template(template: Seq<char>, pairs: Seq<(Seq<char>, Seq<char>)>) -> Seq<
    char,
>
    decreases pairs.len(),
{
    if pairs.len() == 0 {
        template
    } else {
        spec_replace(
            spec_render_template(template, pairs.drop_last()),
            pairs.last().0,
            pairs.last().1,
        )
    }
}

/// The placeholders of the page and the text of each counter.
pub open spec fn spec_page_replacements(s: StatsSnapshot) -> Seq<(Seq<char>, Seq<char>)> {
    seq![
        ("{total_connections}"@, spec_decimal(s.total_connections as nat)),
        ("{active_connections}"@, spec_decimal(s.active_connections as nat)),
        ("{socks5_connections}"@, spec_decimal(s.socks5_connections as nat)),
        ("{http_connections}"@, spec_decimal(s.http_connections as nat)),
        ("{tcp_up}"@, spec_format_bytes(s.tcp_bytes_up)),
        ("{tcp_down}"@, spec_format_bytes(s.tcp_bytes_down)),
        ("{udp_associate_sessions}"@, spec_decimal(s.udp_associate_sessions as nat)),
        ("{udp_datagrams_out}"@, spec_decimal(s.udp_datagrams_out as nat)),
        ("{udp_datagrams_in}"@, spec_decimal(s.udp_datagrams_in as nat)),
        ("{udp_bytes_out}"@, spec_format_bytes(s.udp_bytes_out)),
        ("{udp_bytes_in}"@, spec_format_bytes(s.udp_bytes_in)),
        ("{connect_failures}"@, spec_decimal(s.connect_failures as nat)),
    ]
}

/// The statistics page for a snapshot.
pub open spec fn spec_stats_page(s: StatsSnapshot) -> Seq<char> {
    spec_render_template(STATS_TEMPLATE@, spec_page_replacements(s))
}

/// Replaces placeholders in a template, one pair after the other.
pub fn render_template(template: &str, replacements: &[(&str, String)]) -> (r: String)
    ensures
        r@ == spec_render_template(template@, spec_pairs_view(replacements@)),
{
    let mut rendered = string_of(crate::text::chars_of(template).as_slice());
    let mut i: usize = 0;
    while i < replacements.len()
        invariant
            i <= replacements@.len(),
            rendered@ == spec_render_template(
                template@,
                spec_pairs_view(replacements@).take(i as int),
            ),
        decreases replacements@.len() - i,
    {
        let (token, value) = &replacements[i];
        rendered = replace_all(rendered.as_str(), token, value.as_str());
        proof {
            let all = spec_pairs_view(replacements@);
            assert(all.take(i + 1).drop_last() =~= all.take(i as int));
        }
        i = i + 1;
    }
    assert(spec_pairs_view(replacements@).take(i as int) =~= spec_pairs_view(replacements@));
    rendered
}

/// `n` divided by `d`, rounded to the nearest integer, ties to even.
pub open spec fn spec_round_half_even(n: nat, d: nat) -> nat {
    let q = n / d;
    let r = n % d;
    if r * 2 > d || (r * 2 == d && q % 2 == 1) {
        q + 1
    } else {
        q
    }
}

/// The power of two that spaces the `f64` values around `n`: the smallest
/// one from `2^k` on below which `n` has at most 53 significant bits.
pub open spec fn spec_f64_spacing(n: nat, k: nat) -> nat
    decreases 64 - k,
{
    if k >= 64 || n / pow2(k) < pow2(53) {
        pow2(k)
    } else {
        spec_f64_spacing(n, k + 1)
    }
}

/// The `f64` nearest to `n` (`n as f64`: round to nearest, ties to even).
pub open spec fn spec_f64_of(n: nat) -> nat {
    let unit = spec_f64_spacing(n, 0);
    spec_round_half_even(n, unit) * unit
}

/// `{:.2} MB` of `bytes as f64 / (1024.0 * 1024.0)`: the exact quotient
/// rounded to hundredths, ties to even, with two decimals.
pub open spec fn spec_format_bytes(bytes: u64) -> Seq<char> {
    let cents = spec_round_half_even(spec_f64_of(bytes as nat) * 100, 1048576);
    spec_decimal(cents / 100) + seq!['.', spec_digit_char((cents / 10) % 10), spec_digit_char(
        cents % 10,
    )] + " MB"@
}

/// `n / d` rounded half to even.
fn round_half_even(n: u128, d: u128) -> (r: u128)
    requires
        d > 0,
        n + d <= u128::MAX,
    ensures
        r == spec_round_half_even(n as nat, d as nat),
        r * d <= n + d,
{
    let q = n / d;
    let rem = n % d;
    proof {
        vstd::arithmetic::div_mod::lemma_fundamental_div_mod(n as int, d as int);
        assert(q * d <= n) by (nonlinear_arith)
            requires
                n == d * q + rem,
                rem >= 0,
        ;
        assert((q + 1) * d == q * d + d) by (nonlinear_arith);
    }
    if rem > d - rem || (rem == d - rem && q % 2 == 1) {
        q + 1
    } else {
        q
    }
}

/// The value of `n as f64`, exactly.
fn f64_value(n: u64) -> (r: u128)
    ensures
        r == spec_f64_of(n as nat),
        r <= 0x1_0000_0000_0000_0000 + 0x800,
{
    let mut k: u32 = 0;
    let mut unit: u128 = 1;
    proof {
        vstd::arithmetic::power2::lemma2_to64();
    }
    while k < 64 && (n as u128) / unit >= 0x20_0000_0000_0000
        invariant
            k <= 11,
            unit == pow2(k as nat),
            unit <= 0x800,
            unit >= 1,
            spec_f64_spacing(n as nat, k as nat) == spec_f64_spacing(n as nat, 0),
        decreases 64 - k,
    {
        proof {
            vstd::arithmetic::power2::lemma_pow2_unfold((k + 1) as nat);
            vstd::arithmetic::power2::lemma2_to64();
            vstd::arithmetic::div_mod::lemma_fundamental_div_mod(n as int, unit as int);
            let q = (n as u128) / unit;
            assert(unit * q <= n) by (nonlinear_arith)
                requires
                    n == unit * q + (n as u128) % unit,
                    (n as u128) % unit >= 0,
            ;
            assert(unit * 0x20_0000_0000_0000 <= unit * q) by (nonlinear_arith)
                requires
                    q >= 0x20_0000_0000_0000,
                    unit > 0,
            ;
            assert(unit < 0x800);
            if k >= 11 {
                vstd::arithmetic::power2::lemma_pow2_strictly_increases(11, k as nat);
            }
            vstd::arithmetic::power2::lemma2_to64_rest();
            assert(spec_f64_spacing(n as nat, k as nat) == spec_f64_spacing(n as nat, (k + 1) as nat));
        }
        unit = unit * 2;
        k = k + 1;
    }
    proof {
        vstd::arithmetic::power2::lemma_pow2_pos(k as nat);
        vstd::arithmetic::power2::lemma2_to64();
        vstd::arithmetic::power2::lemma2_to64_rest();
        assert(spec_f64_spacing(n as nat, k as nat) == unit);
    }
    let q = round_half_even(n as u128, unit);
    q * unit
}

/// Formats a byte count as megabytes with two decimals.
pub fn format_bytes(bytes: u64) -> (r: String)
    ensures
        r@ == spec_format_bytes(bytes),
{
    let f = f64_value(bytes);
    let cents = round_half_even(f * 100, 1048576);
    let mut cs: Vec<char> = Vec::new();
    push_decimal(&mut cs, (cents / 100) as u64);
    cs.push('.');
    cs.push(digit_char(((cents / 10) % 10) as u8));
    cs.push(digit_char((cents % 10) as u8));
    cs.push(' ');
    cs.push('M');
    cs.push('B');
    proof {
        reveal_strlit(" MB");
    }
    assert(cs@ =~= spec_format_bytes(bytes));
    string_of(cs.as_slice())
}

// ---------------------------------------------------------------------
// The page as text
// ---------------------------------------------------------------------

/// Text with no `{` and no `}`.
pub open spec fn spec_no_brace(t: Seq<char>) -> bool {
    forall|i: int| 0 <= i < t.len() ==> #[trigger] t[i] != '{' && t[i] != '}'
}

/// A placeholder: `{`, then text with no braces, then `}`.
pub open spec fn spec_placeholder(t: Seq<char>) -> bool {
    &&& t.len() >= 2
    &&& t[0] == '{'
    &&& t[t.len() - 1] == '}'
    &&& forall|i: int| 0 < i < t.len() - 1 ==> #[trigger] t[i] != '{' && t[i] != '}'
}

/// Pieces of text one after the other.
pub open spec fn spec_join(segs: Seq<Seq<char>>) -> Seq<char>
    decreases segs.len(),
{
    if segs.len() == 0 {
        Seq::empty()
    } else {
        segs[0] + spec_join(segs.drop_first())
    }
}

proof fn lemma_replace_short(s: Seq<char>, from: Seq<char>, to: Seq<char>)
    requires
        from.len() > 0,
        s.len() < from.len(),
    ensures
        spec_replace(s, from, to) == s,
{
}

proof fn lemma_replace_skip_plain(a: Seq<char>, b: Seq<char>, from: Seq<char>, to: Seq<char>)
    requires
        spec_placeholder(from),
        forall|i: int| 0 <= i < a.len() ==> #[trigger] a[i] != '{',
    ensures
        spec_replace(a + b, from, to) == a + spec_replace(b, from, to),
    decreases a.len(),
{
    if a.len() == 0 {
        assert(a + b =~= b);
    } else {
        let s = a + b;
        if s.len() < from.len() {
            lemma_replace_short(b, from, to);
        } else {
            assert(s.take(from.len() as int)[0] == a[0]);
            assert(s.take(from.len() as int) != from);
            assert(s.drop_first() =~= a.drop_first() + b);
            lemma_replace_skip_plain(a.drop_first(), b, from, to);
            assert(seq![s[0]] + (a.drop_first() + spec_replace(b, from, to)) =~= a + spec_replace(b, from, to));
        }
    }
}

proof fn lemma_replace_at_placeholder(b: Seq<char>, from: Seq<char>, to: Seq<char>)
    requires
        spec_placeholder(from),
    ensures
        spec_replace(from + b, from, to) == to + spec_replace(b, from, to),
{
    let s = from + b;
    assert(s.take(from.len() as int) =~= from);
    assert(s.skip(from.len() as int) =~= b);
}

proof fn lemma_replace_other_placeholder(q: Seq<char>, b: Seq<char>, from: Seq<char>, to: Seq<char>)
    requires
        spec_placeholder(from),
        spec_placeholder(q),
        q != from,
    ensures
        spec_replace(q + b, from, to) == q + spec_replace(b, from, to),
{
    let s = q + b;
    let n = from.len() as int;
    let m = q.len() as int;
    if s.len() < n {
        lemma_replace_short(b, from, to);
    } else {
        if s.take(n) == from {
            if n <= m {
                assert(from[n - 1] == s[n - 1]);
                if n < m {
                    assert(q[n - 1] != '}');
                } else {
                    assert(from =~= q);
                }
            } else {
                assert(from[m - 1] == s[m - 1]);
                assert(from[m - 1] != '}');
            }
        }
        assert(s.drop_first() =~= q.drop_first() + b);
        lemma_replace_skip_plain(q.drop_first(), b, from, to);
        assert(seq![s[0]] + (q.drop_first() + spec_replace(b, from, to)) =~= q + spec_replace(b, from, to));
    }
}

/// Each piece is plain text or a placeholder.
pub open spec fn spec_pieces_ok(segs: Seq<Seq<char>>) -> bool {
    forall|i: int| 0 <= i < segs.len() ==> spec_no_brace(#[trigger] segs[i]) || spec_placeholder(segs[i])
}

/// The pieces with every occurrence of the placeholder `p` replaced by `v`.
pub open spec fn spec_fill(segs: Seq<Seq<char>>, p: Seq<char>, v: Seq<char>) -> Seq<Seq<char>> {
    Seq::new(segs.len(), |i: int| if segs[i] == p { v } else { segs[i] })
}

proof fn lemma_replace_pieces(segs: Seq<Seq<char>>, p: Seq<char>, v: Seq<char>)
    requires
        spec_pieces_ok(segs),
        spec_placeholder(p),
    ensures
        spec_replace(spec_join(segs), p, v) == spec_join(spec_fill(segs, p, v)),
    decreases segs.len(),
{
    if segs.len() == 0 {
        assert(spec_fill(segs, p, v) =~= Seq::<Seq<char>>::empty());
        assert(spec_replace(Seq::<char>::empty(), p, v) == Seq::<char>::empty());
    } else {
        let rest = segs.drop_first();
        assert(spec_pieces_ok(rest)) by {
            assert forall|i: int| 0 <= i < rest.len() implies spec_no_brace(#[trigger] rest[i]) || spec_placeholder(rest[i]) by {
                assert(rest[i] == segs[i + 1]);
            }
        }
        lemma_replace_pieces(rest, p, v);
        assert(spec_fill(segs, p, v).drop_first() =~= spec_fill(rest, p, v));
        let h = segs[0];
        assert(spec_pieces_ok(segs) ==> (spec_no_brace(segs[0]) || spec_placeholder(segs[0])));
        if h == p {
            lemma_replace_at_placeholder(spec_join(rest), p, v);
        } else if spec_placeholder(h) {
            lemma_replace_other_placeholder(h, spec_join(rest), p, v);
        } else {
            assert forall|i: int| 0 <= i < h.len() implies #[trigger] h[i] != '{' by {
                assert(spec_no_brace(h));
            }
            lemma_replace_skip_plain(h, spec_join(rest), p, v);
        }
    }
}

/// The statistics page laid out: each row's label, then the cell that
/// shows the counter it names.
pub open spec fn spec_page_layout(s: StatsSnapshot) -> Seq<Seq<char>> {
    seq![
        "<!DOCTYPE html>\n<html>\n<head><meta charset=\"utf-8\"><title>tinysocks stats</title></head>\n<body>\n<h1>tinysocks</h1>\n<table>\n<tr><th>Total connections</th><td>"@,
        spec_decimal(s.total_connections as nat),
        "</td></tr>\n<tr><th>Active connections</th><td>"@,
        spec_decimal(s.active_connections as nat),
        "</td></tr>\n<tr><th>SOCKS5 connections</th><td>"@,
        spec_decimal(s.socks5_connections as nat),
        "</td></tr>\n<tr><th>HTTP connections</th><td>"@,
        spec_decimal(s.http_connections as nat),
        "</td></tr>\n<tr><th>TCP upload</th><td>"@,
        spec_format_bytes(s.tcp_bytes_up),
        "</td></tr>\n<tr><th>TCP download</th><td>"@,
        spec_format_bytes(s.tcp_bytes_down),
        "</td></tr>\n<tr><th>UDP ASSOCIATE sessions</th><td>"@,
        spec_decimal(s.udp_associate_sessions as nat),
        "</td></tr>\n<tr><th>UDP datagrams out</th><td>"@,
        spec_decimal(s.udp_datagrams_out as nat),
        "</td></tr>\n<tr><th>UDP datagrams in</th><td>"@,
        spec_decimal(s.udp_datagrams_in as nat),
        "</td></tr>\n<tr><th>UDP bytes out</th><td>"@,
        spec_format_bytes(s.udp_bytes_out),
        "</td></tr>\n<tr><th>UDP bytes in</th><td>"@,
        spec_format_bytes(s.udp_bytes_in),
        "</td></tr>\n<tr><th>Connect failures</th><td>"@,
        spec_decimal(s.connect_failures as nat),
        "</td></tr>\n</table>\n</body>\n</html>\n"@,
    ]
}

/// The text of the page between its cells, in order.
pub open spec fn spec_page_chunk(c: int) -> Seq<char> {
    if c == 0 {
        "<!DOCTYPE html>\n<html>\n<head><meta charset=\"utf-8\"><title>tinysocks stats</title></head>\n<body>\n<h1>tinysocks</h1>\n<table>\n<tr><th>Total connections</th><td>"@
    } else if c == 1 {
        "</td></tr>\n<tr><th>Active connections</th><td>"@
    } else if c == 2 {
        "</td></tr>\n<tr><th>SOCKS5 connections</th><td>"@
    } else if c == 3 {
        "</td></tr>\n<tr><th>HTTP connections</th><td>"@
    } else if c == 4 {
        "</td></tr>\n<tr><th>TCP upload</th><td>"@
    } else if c == 5 {
        "</td></tr>\n<tr><th>TCP download</th><td>"@
    } else if c == 6 {
        "</td></tr>\n<tr><th>UDP ASSOCIATE sessions</th><td>"@
    } else if c == 7 {
        "</td></tr>\n<tr><th>UDP datagrams out</th><td>"@
    } else if c == 8 {
        "</td></tr>\n<tr><th>UDP datagrams in</th><td>"@
    } else if c == 9 {
        "</td></tr>\n<tr><th>UDP bytes out</th><td>"@
    } else if c == 10 {
        "</td></tr>\n<tr><th>UDP bytes in</th><td>"@
    } else if c == 11 {
        "</td></tr>\n<tr><th>Connect failures</th><td>"@
    } else {
        "</td></tr>\n</table>\n</body>\n</html>\n"@
    }
}

/// The placeholders of the page's cells, in order.
pub open spec fn spec_page_hole(h: int) -> Seq<char> {
    if h == 0 {
        "{total_connections}"@
    } else if h == 1 {
        "{active_connections}"@
    } else if h == 2 {
        "{socks5_connections}"@
    } else if h == 3 {
        "{http_connections}"@
    } else if h == 4 {
        "{tcp_up}"@
    } else if h == 5 {
        "{tcp_down}"@
    } else if h == 6 {
        "{udp_associate_sessions}"@
    } else if h == 7 {
        "{udp_datagrams_out}"@
    } else if h == 8 {
        "{udp_datagrams_in}"@
    } else if h == 9 {
        "{udp_bytes_out}"@
    } else if h == 10 {
        "{udp_bytes_in}"@
    } else {
        "{connect_failures}"@
    }
}

/// The text of each cell of the page for a snapshot, in order.
pub open spec fn spec_page_cell(s: StatsSnapshot, h: int) -> Seq<char> {
    if h == 0 {
        spec_decimal(s.total_connections as nat)
    } else if h == 1 {
        spec_decimal(s.active_connections as nat)
    } else if h == 2 {
        spec_decimal(s.socks5_connections as nat)
    } else if h == 3 {
        spec_decimal(s.http_connections as nat)
    } else if h == 4 {
        spec_format_bytes(s.tcp_bytes_up)
    } else if h == 5 {
        spec_format_bytes(s.tcp_bytes_down)
    } else if h == 6 {
        spec_decimal(s.udp_associate_sessions as nat)
    } else if h == 7 {
        spec_decimal(s.udp_datagrams_out as nat)
    } else if h == 8 {
        spec_decimal(s.udp_datagrams_in as nat)
    } else if h == 9 {
        spec_format_bytes(s.udp_bytes_out)
    } else if h == 10 {
        spec_format_bytes(s.udp_bytes_in)
    } else {
        spec_decimal(s.connect_failures as nat)
    }
}

/// The page after the first `k` cells are filled in: labels, the filled
/// cells, then the placeholders still to fill.
pub open spec fn spec_page_stage(s: StatsSnapshot, k: int) -> Seq<Seq<char>> {
    Seq::new(
        25,
        |j: int|
            if j % 2 == 0 {
                spec_page_chunk(j / 2)
            } else if (j - 1) / 2 < k {
                spec_page_cell(s, (j - 1) / 2)
            } else {
                spec_page_hole((j - 1) / 2)
            },
    )
}

proof fn lemma_digit_no_brace(d: nat)
    requires
        d < 10,
    ensures
        spec_digit_char(d) != '{' && spec_digit_char(d) != '}',
{
    assert(spec_digit_char(d) as u32 == 48 + d);
}

proof fn lemma_decimal_no_brace(n: nat)
    ensures
        spec_no_brace(spec_decimal(n)),
    decreases n,
{
    if n < 10 {
        lemma_digit_no_brace(n);
    } else {
        lemma_decimal_no_brace(n / 10);
        lemma_digit_no_brace(n % 10);
    }
}

proof fn lemma_cells_no_brace(s: StatsSnapshot, h: int)
    requires
        0 <= h < 12,
    ensures
        spec_no_brace(spec_page_cell(s, h)),
{
    reveal_strlit(" MB");
    if h == 4 || h == 5 || h == 9 || h == 10 {
        let b = if h == 4 {
            s.tcp_bytes_up
        } else if h == 5 {
            s.tcp_bytes_down
        } else if h == 9 {
            s.udp_bytes_out
        } else {
            s.udp_bytes_in
        };
        let cents = spec_round_half_even(spec_f64_of(b as nat) * 100, 1048576);
        lemma_decimal_no_brace(cents / 100);
        lemma_digit_no_brace((cents / 10) % 10);
        lemma_digit_no_brace(cents % 10);
        assert(spec_page_cell(s, h) == spec_format_bytes(b));
    } else {
        let n: nat = if h == 0 {
            s.total_connections as nat
        } else if h == 1 {
            s.active_connections as nat
        } else if h == 2 {
            s.socks5_connections as nat
        } else if h == 3 {
            s.http_connections as nat
        } else if h == 6 {
            s.udp_associate_sessions as nat
        } else if h == 7 {
            s.udp_datagrams_out as nat
        } else if h == 8 {
            s.udp_datagrams_in as nat
        } else {
            s.connect_failures as nat
        };
        lemma_decimal_no_brace(n);
        assert(spec_page_cell(s, h) == spec_decimal(n));
    }
}

proof fn lemma_page_hole_keys()
    ensures
        forall|h: int, k: int|
            0 <= h < 12 && 0 <= k < 12 && h != k ==> #[trigger] spec_page_hole(h) != #[trigger] spec_page_hole(k),
{
    reveal_strlit("{total_connections}");
    reveal_strlit("{active_connections}");
    reveal_strlit("{socks5_connections}");
    reveal_strlit("{http_connections}");
    reveal_strlit("{tcp_up}");
    reveal_strlit("{tcp_down}");
    reveal_strlit("{udp_associate_sessions}");
    reveal_strlit("{udp_datagrams_out}");
    reveal_strlit("{udp_datagrams_in}");
    reveal_strlit("{udp_bytes_out}");
    reveal_strlit("{udp_bytes_in}");
    reveal_strlit("{connect_failures}");
    assert forall|h: int, k: int|
        0 <= h < 12 && 0 <= k < 12 && h != k implies #[trigger] spec_page_hole(h) != #[trigger] spec_page_hole(k) by {
        let a = spec_page_hole(h);
        let b = spec_page_hole(k);
        if a == b {
            assert(a.len() == b.len() && a[1] == b[1]);
        }
    }
}

proof fn lemma_page_literals()
    ensures
        forall|c: int| 0 <= c < 13 ==> spec_no_brace(#[trigger] spec_page_chunk(c)),
        forall|h: int| 0 <= h < 12 ==> spec_placeholder(#[trigger] spec_page_hole(h)),
        forall|h: int, k: int|
            0 <= h < 12 && 0 <= k < 12 && h != k ==> #[trigger] spec_page_hole(h) != #[trigger] spec_page_hole(k),
{
    lemma_page_hole_keys();
    reveal_strlit("<!DOCTYPE html>\n<html>\n<head><meta charset=\"utf-8\"><title>tinysocks stats</title></head>\n<body>\n<h1>tinysocks</h1>\n<table>\n<tr><th>Total connections</th><td>");
    reveal_strlit("</td></tr>\n<tr><th>Active connections</th><td>");
    reveal_strlit("</td></tr>\n<tr><th>SOCKS5 connections</th><td>");
    reveal_strlit("</td></tr>\n<tr><th>HTTP connections</th><td>");
    reveal_strlit("</td></tr>\n<tr><th>TCP upload</th><td>");
    reveal_strlit("</td></tr>\n<tr><th>TCP download</th><td>");
    reveal_strlit("</td></tr>\n<tr><th>UDP ASSOCIATE sessions</th><td>");
    reveal_strlit("</td></tr>\n<tr><th>UDP datagrams out</th><td>");
    reveal_strlit("</td></tr>\n<tr><th>UDP datagrams in</th><td>");
    reveal_strlit("</td></tr>\n<tr><th>UDP bytes out</th><td>");
    reveal_strlit("</td></tr>\n<tr><th>UDP bytes in</th><td>");
    reveal_strlit("</td></tr>\n<tr><th>Connect failures</th><td>");
    reveal_strlit("</td></tr>\n</table>\n</body>\n</html>\n");
    reveal_strlit("{total_connections}");
    reveal_strlit("{active_connections}");
    reveal_strlit("{socks5_connections}");
    reveal_strlit("{http_connections}");
    reveal_strlit("{tcp_up}");
    reveal_strlit("{tcp_down}");
    reveal_strlit("{udp_associate_sessions}");
    reveal_strlit("{udp_datagrams_out}");
    reveal_strlit("{udp_datagrams_in}");
    reveal_strlit("{udp_bytes_out}");
    reveal_strlit("{udp_bytes_in}");
    reveal_strlit("{connect_failures}");
}

proof fn lemma_page_template()
    ensures
        STATS_TEMPLATE@ == spec_join(Seq::new(
            25,
            |j: int|
                if j % 2 == 0 {
                    spec_page_chunk(j / 2)
                } else {
                    spec_page_hole((j - 1) / 2)
                },
        )),
{
    reveal_strlit("<!DOCTYPE html>\n<html>\n<head><meta charset=\"utf-8\"><title>tinysocks stats</title></head>\n<body>\n<h1>tinysocks</h1>\n<table>\n<tr><th>Total connections</th><td>");
    reveal_strlit("</td></tr>\n<tr><th>Active connections</th><td>");
    reveal_strlit("</td></tr>\n<tr><th>SOCKS5 connections</th><td>");
    reveal_strlit("</td></tr>\n<tr><th>HTTP connections</th><td>");
    reveal_strlit("</td></tr>\n<tr><th>TCP upload</th><td>");
    reveal_strlit("</td></tr>\n<tr><th>TCP download</th><td>");
    reveal_strlit("</td></tr>\n<tr><th>UDP ASSOCIATE sessions</th><td>");
    reveal_strlit("</td></tr>\n<tr><th>UDP datagrams out</th><td>");
    reveal_strlit("</td></tr>\n<tr><th>UDP datagrams in</th><td>");
    reveal_strlit("</td></tr>\n<tr><th>UDP bytes out</th><td>");
    reveal_strlit("</td></tr>\n<tr><th>UDP bytes in</th><td>");
    reveal_strlit("</td></tr>\n<tr><th>Connect failures</th><td>");
    reveal_strlit("</td></tr>\n</table>\n</body>\n</html>\n");
    reveal_strlit("{total_connections}");
    reveal_strlit("{active_connections}");
    reveal_strlit("{socks5_connections}");
    reveal_strlit("{http_connections}");
    reveal_strlit("{tcp_up}");
    reveal_strlit("{tcp_down}");
    reveal_strlit("{udp_associate_sessions}");
    reveal_strlit("{udp_datagrams_out}");
    reveal_strlit("{udp_datagrams_in}");
    reveal_strlit("{udp_bytes_out}");
    reveal_strlit("{udp_bytes_in}");
    reveal_strlit("{connect_failures}");
    reveal_strlit("<!DOCTYPE html>
<html>
<head><meta charset=\"utf-8\"><title>tinysocks stats</title></head>
<body>
<h1>tinysocks</h1>
<table>
<tr><th>Total connections</th><td>{total_connections}</td></tr>
<tr><th>Active connections</th><td>{active_connections}</td></tr>
<tr><th>SOCKS5 connections</th><td>{socks5_connections}</td></tr>
<tr><th>HTTP connections</th><td>{http_connections}</td></tr>
<tr><th>TCP upload</th><td>{tcp_up}</td></tr>
<tr><th>TCP download</th><td>{tcp_down}</td></tr>
<tr><th>UDP ASSOCIATE sessions</th><td>{udp_associate_sessions}</td></tr>
<tr><th>UDP datagrams out</th><td>{udp_datagrams_out}</td></tr>
<tr><th>UDP datagrams in</th><td>{udp_datagrams_in}</td></tr>
<tr><th>UDP bytes out</th><td>{udp_bytes_out}</td></tr>
<tr><th>UDP bytes in</th><td>{udp_bytes_in}</td></tr>
<tr><th>Connect failures</th><td>{connect_failures}</td></tr>
</table>
</body>
</html>
");
    reveal_with_fuel(spec_join, 26);
}

proof fn lemma_page_stage_step(s: StatsSnapshot, k: int)
    requires
        0 <= k < 12,
    ensures
        spec_pieces_ok(spec_page_stage(s, k)),
        spec_fill(spec_page_stage(s, k), spec_page_hole(k), spec_page_cell(s, k)) == spec_page_stage(s, k + 1),
{
    lemma_page_literals();
    assert forall|h: int| 0 <= h < 12 implies spec_no_brace(#[trigger] spec_page_cell(s, h)) by {
        lemma_cells_no_brace(s, h);
    }
    let st = spec_page_stage(s, k);
    let p = spec_page_hole(k);
    assert(p[0] == '{');
    assert forall|j: int| 0 <= j < 25 implies spec_no_brace(#[trigger] st[j]) || spec_placeholder(st[j]) by {
        if j % 2 == 0 {
            assert(spec_no_brace(spec_page_chunk(j / 2)));
        } else if (j - 1) / 2 < k {
            assert(spec_no_brace(spec_page_cell(s, (j - 1) / 2)));
        } else {
            assert(spec_placeholder(spec_page_hole((j - 1) / 2)));
        }
    }
    let filled = spec_fill(st, p, spec_page_cell(s, k));
    assert forall|j: int| 0 <= j < 25 implies #[trigger] filled[j] == spec_page_stage(s, k + 1)[j] by {
        if j % 2 == 0 {
            let c = spec_page_chunk(j / 2);
            assert(spec_no_brace(c));
            if c == p {
                assert(c[0] == '{');
            }
        } else {
            let h = (j - 1) / 2;
            if h < k {
                let v = spec_page_cell(s, h);
                assert(spec_no_brace(v));
                if v == p {
                    assert(v[0] == '{');
                }
            } else if h > k {
                assert(spec_page_hole(h) != spec_page_hole(k));
            }
        }
    }
    assert(filled =~= spec_page_stage(s, k + 1));
}

proof fn lemma_page_pairs(s: StatsSnapshot, h: int)
    requires
        0 <= h < 12,
    ensures
        spec_page_replacements(s)[h] == (spec_page_hole(h), spec_page_cell(s, h)),
{
}

proof fn lemma_page_render_stages(s: StatsSnapshot, k: int)
    requires
        0 <= k <= 12,
    ensures
        spec_render_template(STATS_TEMPLATE@, spec_page_replacements(s).take(k)) == spec_join(spec_page_stage(s, k)),
    decreases k,
{
    let pairs = spec_page_replacements(s);
    if k == 0 {
        lemma_page_template();
        assert(pairs.take(0) =~= Seq::<(Seq<char>, Seq<char>)>::empty());
        assert(spec_page_stage(s, 0) =~= Seq::new(
            25,
            |j: int|
                if j % 2 == 0 {
                    spec_page_chunk(j / 2)
                } else {
                    spec_page_hole((j - 1) / 2)
                },
        ));
    } else {
        lemma_page_render_stages(s, k - 1);
        assert(pairs.take(k).drop_last() =~= pairs.take(k - 1));
        lemma_page_pairs(s, k - 1);
        assert(pairs.take(k).last() == pairs[k - 1]);
        lemma_page_stage_step(s, k - 1);
        lemma_page_literals();
        assert(spec_placeholder(spec_page_hole(k - 1)));
        lemma_replace_pieces(spec_page_stage(s, k - 1), spec_page_hole(k - 1), spec_page_cell(s, k - 1));
    }
}

/// Law: the statistics page is its fixed text with each row's cell filled
/// from the counter that the row names: the connection counts and datagram
/// counts in decimal, the upload, download and UDP byte counts in MB.
pub proof fn lemma_stats_page_shows_each_counter(s: StatsSnapshot)
    ensures
        spec_stats_page(s) == spec_join(spec_page_layout(s)),
{
    lemma_page_render_stages(s, 12);
    assert(spec_page_replacements(s).take(12) =~= spec_page_replacements(s));
    assert(spec_page_stage(s, 12) =~= spec_page_layout(s));
}

} // verus!
