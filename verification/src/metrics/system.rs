//! System counters of the process: processor time, memory and TCP errors,
//! read from the text that the kernel reports them in.

use vstd::prelude::*;

#[allow(unused_imports)]
use crate::lists;
#[allow(unused_imports)]
use crate::scan;
use crate::scan::{split_lines, split_words, trim};
#[allow(unused_imports)]
use crate::text;
use crate::text::{decimal_text, find_last, parse_unsigned, starts_with, strip_prefix, text_chars, text_eq, text_of};

verus! {

/// The clock ticks per second in which the kernel counts processor time.
pub const TICKS_PER_SEC: u64 = 100;

/// The number that `s` writes down, 0 where it writes none.
pub open spec fn number_or_zero(s: Seq<char>) -> nat {
    match text::parsed_unsigned(s, u64::MAX as nat) {
        Some(n) => n,
        None => 0,
    }
}

fn parse_or_zero(s: &str) -> (n: u64)
    ensures
        n == number_or_zero(s@),
{
    match parse_unsigned(s, u64::MAX) {
        Some(n) => n,
        None => 0,
    }
}

/// The fields of a process's `stat` line behind the program name, which
/// stands in parentheses.
pub open spec fn stat_fields(stat: Seq<char>) -> Option<Seq<Seq<char>>> {
    match text::last_index(stat, ')') {
        Some(p) => Some(scan::words(stat.skip(p + 2))),
        None => None,
    }
}

/// A one-byte character follows the program name.
pub open spec fn name_is_followed(stat: Seq<char>) -> bool {
    match text::last_index(stat, ')') {
        Some(p) => p + 1 < stat.len() && (stat[p + 1] as int) < 128,
        None => true,
    }
}

/// The ticks spent in user and in system mode.
pub open spec fn stat_ticks(stat: Seq<char>) -> (nat, nat) {
    match stat_fields(stat) {
        Some(f) => if f.len() > 12 {
            (number_or_zero(f[11]), number_or_zero(f[12]))
        } else {
            (0, 0)
        },
        None => (0, 0),
    }
}

/// The processor times of `stat` can be computed in 64 bits.
pub open spec fn times_fit(stat: Seq<char>) -> bool {
    stat_ticks(stat).0 * 1_000_000 <= u64::MAX && stat_ticks(stat).1 * 1_000_000 <= u64::MAX
}

/// The two fields of `stat` that count ticks.
fn tick_fields(stat: &str) -> (r: (u64, u64))
    requires
        name_is_followed(stat@),
    ensures
        r.0 == stat_ticks(stat@).0,
        r.1 == stat_ticks(stat@).1,
{
    let v = text_chars(stat);
    match find_last(&v, ')') {
        Some(pos) => {
            let n: usize = v.len();
            assert(pos + 2 <= n);
            let rest = text_of(&v, pos + 2, n);
            assert(rest@ =~= stat@.skip(pos + 2));
            let fields = split_words(rest.as_str());
            if fields.len() > 12 {
                assert(scan::texts(fields@)[11] == fields@[11]@);
                assert(scan::texts(fields@)[12] == fields@[12]@);
                (parse_or_zero(fields[11].as_str()), parse_or_zero(fields[12].as_str()))
            } else {
                (0, 0)
            }
        },
        None => (0, 0),
    }
}

fn one_byte(c: char) -> (r: bool)
    ensures
        r == ((c as int) < 128),
{
    (c as u32) < 128
}

/// Whether the processor times of `stat` can be read.
pub fn cpu_times_readable(stat: &str) -> (r: bool)
    ensures
        r == (name_is_followed(stat@) && times_fit(stat@)),
{
    let v = text_chars(stat);
    if let Some(pos) = find_last(&v, ')') {
        let n: usize = v.len();
        if n - pos < 2 {
            return false;
        }
        if !one_byte(v[pos + 1]) {
            return false;
        }
    }
    let (user, sys) = tick_fields(stat);
    user <= u64::MAX / 1_000_000 && sys <= u64::MAX / 1_000_000
}

/// The processor time in user and in system mode, in microseconds, of a
/// process whose `stat` line is `stat`.
pub fn parse_cpu_times(stat: &str) -> (r: (u64, u64))
    requires
        name_is_followed(stat@),
        times_fit(stat@),
    ensures
        r.0 == stat_ticks(stat@).0 * 1_000_000 / 100,
        r.1 == stat_ticks(stat@).1 * 1_000_000 / 100,
{
    let (user, sys) = tick_fields(stat);
    (user * 1_000_000 / TICKS_PER_SEC, sys * 1_000_000 / TICKS_PER_SEC)
}

/// The resident set size in kilobytes that a process's `status` text gives:
/// the first word behind `VmRSS:` on the first such line.
pub open spec fn rss_of(status: Seq<char>) -> nat {
    let l = scan::lines(status);
    match lists::first_index(l, |x: Seq<char>| "VmRSS:"@.is_prefix_of(x)) {
        Some(i) => {
            let w = scan::words(l[i].skip("VmRSS:"@.len() as int));
            if w.len() > 0 {
                number_or_zero(w[0])
            } else {
                0
            }
        },
        None => 0,
    }
}

/// The resident set size in kilobytes of a process whose `status` text is
/// `status`.
pub fn parse_rss_kb(status: &str) -> (kb: u64)
    ensures
        kb == rss_of(status@),
{
    let lines = split_lines(status);
    let ghost l = scan::lines(status@);
    let ghost p = |x: Seq<char>| "VmRSS:"@.is_prefix_of(x);
    let mut i: usize = 0;
    while i < lines.len()
        invariant
            i <= lines@.len(),
            scan::texts(lines@) == l,
            l == scan::lines(status@),
            p == (|x: Seq<char>| "VmRSS:"@.is_prefix_of(x)),
            forall|j: int| 0 <= j < i ==> !p(#[trigger] l[j]),
        decreases lines@.len() - i,
    {
        assert(l[i as int] == lines@[i as int]@);
        if let Some(rest) = strip_prefix(lines[i].as_str(), "VmRSS:") {
            proof {
                lists::lemma_is_first_index(l, p, i as int);
            }
            let w = split_words(rest.as_str());
            if w.len() > 0 {
                assert(scan::texts(w@)[0] == w@[0]@);
                return parse_or_zero(w[0].as_str());
            }
            return 0;
        }
        i = i + 1;
    }
    proof {
        lists::lemma_no_first_index(l, p);
    }
    0
}

/// The resident set size in kilobytes that `ps` reports of a process, where it
/// is asked for nothing else.
pub fn parse_ps_rss_kb(output: &str) -> (kb: u64)
    ensures
        kb == number_or_zero(scan::trimmed(output@)),
{
    let body = trim(output);
    parse_or_zero(body.as_str())
}

/// The entry of `values` under the first label that `wanted` accepts.
pub open spec fn labelled(
    labels: Seq<Seq<char>>,
    values: Seq<Seq<char>>,
    wanted: spec_fn(Seq<char>) -> bool,
) -> nat {
    match lists::first_index(labels, wanted) {
        Some(i) => if i < values.len() {
            number_or_zero(values[i])
        } else {
            0
        },
        None => 0,
    }
}

pub open spec fn is_retrans_label(l: Seq<char>) -> bool {
    l == "RetransSegs"@
}

pub open spec fn is_lost_label(l: Seq<char>) -> bool {
    l == "InErrs"@ || l == "OutRsts"@
}

/// The counts of retransmitted and of lost segments that the kernel's `snmp`
/// text gives: the first line of TCP labels, and the line of values below it.
pub open spec fn tcp_counts(snmp: Seq<char>) -> (nat, nat) {
    let t = scan::lines(snmp).filter(|l: Seq<char>| "Tcp:"@.is_prefix_of(l));
    if t.len() >= 2 {
        let labels = scan::words(t[0]);
        let values = scan::words(t[1]);
        (
            labelled(labels, values, |l: Seq<char>| is_retrans_label(l)),
            labelled(labels, values, |l: Seq<char>| is_lost_label(l)),
        )
    } else {
        (0, 0)
    }
}

/// The retransmitted and lost segments in the kernel's `snmp` text.
pub fn parse_tcp_stats(snmp: &str) -> (r: (u64, u64))
    ensures
        r.0 == tcp_counts(snmp@).0,
        r.1 == tcp_counts(snmp@).1,
{
    let lines = split_lines(snmp);
    let ghost l = scan::lines(snmp@);
    let ghost p = |x: Seq<char>| "Tcp:"@.is_prefix_of(x);
    let mut tcp: Vec<String> = Vec::new();
    let mut i: usize = 0;
    proof {
        reveal(Seq::filter);
        assert(scan::texts(tcp@) =~= l.take(0).filter(p));
    }
    while i < lines.len()
        invariant
            i <= lines@.len(),
            scan::texts(lines@) == l,
            l == scan::lines(snmp@),
            p == (|x: Seq<char>| "Tcp:"@.is_prefix_of(x)),
            scan::texts(tcp@) == l.take(i as int).filter(p),
        decreases lines@.len() - i,
    {
        let line = lines[i].clone();
        proof {
            assert(l[i as int] == lines@[i as int]@);
            assert(l.take(i + 1) =~= l.take(i as int).push(line@));
            l.take(i as int).lemma_filter_push(line@, p);
            assert(scan::texts(tcp@.push(line)) =~= scan::texts(tcp@).push(line@));
        }
        if starts_with(line.as_str(), "Tcp:") {
            tcp.push(line);
        }
        i = i + 1;
    }
    assert(l.take(i as int) =~= l);
    if tcp.len() < 2 {
        return (0, 0);
    }
    assert(scan::texts(tcp@)[0] == tcp@[0]@);
    assert(scan::texts(tcp@)[1] == tcp@[1]@);
    let labels = split_words(tcp[0].as_str());
    let values = split_words(tcp[1].as_str());
    let ghost ls = scan::texts(labels@);
    let ghost vs = scan::texts(values@);
    let ghost pr = |l: Seq<char>| is_retrans_label(l);
    let ghost pl = |l: Seq<char>| is_lost_label(l);
    let is_retrans = |s: &String| -> (b: bool)
        ensures
            b == is_retrans_label(s@)
    { text_eq(s.as_str(), "RetransSegs") };
    let is_lost = |s: &String| -> (b: bool)
        ensures
            b == is_lost_label(s@)
    { text_eq(s.as_str(), "InErrs") || text_eq(s.as_str(), "OutRsts") };
    let ghost qr = |s: String| is_retrans_label(s@);
    let ghost ql = |s: String| is_lost_label(s@);
    let retrans = lists::position(&labels, is_retrans, Ghost(qr));
    let lost = lists::position(&labels, is_lost, Ghost(ql));
    proof {
        let f = |s: String| s@;
        lists::lemma_map_first_index(labels@, f, qr, pr);
        lists::lemma_map_first_index(labels@, f, ql, pl);
    }
    (value_at(&values, retrans), value_at(&values, lost))
}

fn value_at(values: &Vec<String>, at: Option<usize>) -> (n: u64)
    ensures
        n == (match at {
            Some(i) => if i < values@.len() {
                number_or_zero(scan::texts(values@)[i as int])
            } else {
                0
            },
            None => 0,
        }),
{
    match at {
        Some(i) => {
            if i < values.len() {
                assert(scan::texts(values@)[i as int] == values@[i as int]@);
                parse_or_zero(values[i].as_str())
            } else {
                0
            }
        },
        None => 0,
    }
}

/// What was measured between two readings.
#[derive(Debug, Clone, Copy, PartialEq, Eq, Structural)]
pub struct SystemMetrics {
    /// Processor time in user mode, in percent of the elapsed time.
    pub cpu_user_pct: u64,
    /// Processor time in system mode, in percent of the elapsed time.
    pub cpu_sys_pct: u64,
    /// The resident set size in kilobytes.
    pub rss_kb: u64,
    pub tcp_retransmits: u64,
    pub tcp_lost: u64,
}

/// One reading of the counters.
#[derive(Debug, Clone, Copy, PartialEq, Eq, Structural)]
pub struct Reading {
    pub cpu_user_us: u64,
    pub cpu_sys_us: u64,
    pub tcp_retransmits: u64,
    pub tcp_lost: u64,
}

/// How much a counter grew; 0 where it fell.
pub open spec fn growth(before: u64, now: u64) -> nat {
    if now >= before {
        (now - before) as nat
    } else {
        0
    }
}

/// `delta_us` in percent of `elapsed_us`; 0 where no time has passed or the
/// product does not fit 64 bits.
pub open spec fn percent_of(delta_us: nat, elapsed_us: u64) -> nat {
    if elapsed_us == 0 || delta_us * 100 > u64::MAX {
        0
    } else {
        delta_us * 100 / (elapsed_us as nat)
    }
}

fn percent(delta_us: u64, elapsed_us: u64) -> (pct: u64)
    ensures
        pct == percent_of(delta_us as nat, elapsed_us),
{
    if delta_us > u64::MAX / 100 || elapsed_us == 0 {
        0
    } else {
        delta_us * 100 / elapsed_us
    }
}

/// Keeps the last reading, to report what happened since.
#[derive(Debug, Clone, Copy, PartialEq, Eq, Structural)]
pub struct SystemCollector {
    pub prev: Reading,
}

impl SystemCollector {
    /// A collector that reports from the reading `baseline` on.
    pub fn new(baseline: Reading) -> (c: Self)
        ensures
            c.prev == baseline,
    {
        SystemCollector { prev: baseline }
    }

    /// What happened since the last reading, `elapsed_us` microseconds ago.
    pub fn collect(&mut self, now: Reading, rss_kb: u64, elapsed_us: u64) -> (m: SystemMetrics)
        ensures
            final(self).prev == now,
            m.rss_kb == rss_kb,
            m.tcp_retransmits == growth(old(self).prev.tcp_retransmits, now.tcp_retransmits),
            m.tcp_lost == growth(old(self).prev.tcp_lost, now.tcp_lost),
            m.cpu_user_pct == percent_of(
                growth(old(self).prev.cpu_user_us, now.cpu_user_us),
                elapsed_us,
            ),
            m.cpu_sys_pct == percent_of(
                growth(old(self).prev.cpu_sys_us, now.cpu_sys_us),
                elapsed_us,
            ),
    {
        let before = self.prev;
        self.prev = now;
        SystemMetrics {
            cpu_user_pct: percent(now.cpu_user_us.saturating_sub(before.cpu_user_us), elapsed_us),
            cpu_sys_pct: percent(now.cpu_sys_us.saturating_sub(before.cpu_sys_us), elapsed_us),
            rss_kb,
            tcp_retransmits: now.tcp_retransmits.saturating_sub(before.tcp_retransmits),
            tcp_lost: now.tcp_lost.saturating_sub(before.tcp_lost),
        }
    }
}

/// The line that reports a snapshot, with the resident set size shown as
/// `rss_gb` gigabytes and the memory bandwidth as `bw_mib` mebibytes a second.
pub open spec fn report_line(snap: SystemMetrics, rss_gb: Seq<char>, bw_mib: Option<Seq<char>>) -> Seq<
    char,
> {
    "sys  cpu.user="@ + text::decimal(snap.cpu_user_pct as nat) + "% cpu.sys="@ + text::decimal(
        snap.cpu_sys_pct as nat,
    ) + "% rss_gb="@ + rss_gb + " tcp_retrans="@ + text::decimal(snap.tcp_retransmits as nat)
        + " tcp_lost="@ + text::decimal(snap.tcp_lost as nat) + " bw_mib="@ + (match bw_mib {
        Some(b) => b,
        None => "unsupported"@,
    }) + "\n"@
}

/// The line that reports a snapshot. Where the memory bandwidth cannot be
/// measured, it says so.
pub fn flush_system(snap: &SystemMetrics, rss_gb: &str, bw_mib: Option<&str>) -> (line: String)
    ensures
        line@ == report_line(
            *snap,
            rss_gb@,
            match bw_mib {
                Some(b) => Some(b@),
                None => None,
            },
        ),
{
    let mut s = "sys  cpu.user=".to_owned();
    s.append(decimal_text(snap.cpu_user_pct).as_str());
    s.append("% cpu.sys=");
    s.append(decimal_text(snap.cpu_sys_pct).as_str());
    s.append("% rss_gb=");
    s.append(rss_gb);
    s.append(" tcp_retrans=");
    s.append(decimal_text(snap.tcp_retransmits).as_str());
    s.append(" tcp_lost=");
    s.append(decimal_text(snap.tcp_lost).as_str());
    s.append(" bw_mib=");
    s.append(
        match bw_mib {
            Some(b) => b,
            None => "unsupported",
        },
    );
    s.append("\n");
    s
}

/// A decimal number reads as what it writes, anything else as 0.
pub proof fn lemma_number_or_zero(n: nat, s: Seq<char>)
    ensures
        n <= u64::MAX ==> number_or_zero(text::decimal(n)) == n,
        text::parsed_unsigned(s, u64::MAX as nat) is None ==> number_or_zero(s) == 0,
{
    if n <= u64::MAX {
        text::lemma_decimal_parses(n, u64::MAX as nat);
    }
}

/// Of a `stat` line, whatever the program is called, the twelfth and the
/// thirteenth word behind its name are the ticks in user and in system mode.
pub proof fn lemma_ticks_behind_name(name: Seq<char>, c: char, rest: Seq<char>)
    requires
        c != ')',
        forall|i: int| 0 <= i < rest.len() ==> #[trigger] rest[i] != ')',
    ensures
        ({
            let stat = name + seq![')', c] + rest;
            let f = scan::words(rest);
            &&& f.len() >= 13 ==> stat_ticks(stat) == (number_or_zero(f[11]), number_or_zero(f[12]))
            &&& f.len() < 13 ==> stat_ticks(stat) == (0nat, 0nat)
            &&& name_is_followed(stat) <==> (c as int) < 128
        }),
        !name_is_followed(name + seq![')']),
{
    let bare = name + seq![')'];
    text::lemma_last_index(bare, ')');
    assert(bare[name.len() as int] == ')');
    let stat = name + seq![')', c] + rest;
    text::lemma_last_index(stat, ')');
    assert(stat[name.len() as int] == ')');
    match text::last_index(stat, ')') {
        Some(p) => {
            if p > name.len() + 1 {
                assert(stat[p] == rest[p - name.len() - 2]);
            }
            assert(stat[name.len() as int + 1] == c);
            assert(p == name.len());
            assert(stat.skip(p + 2) =~= rest);
        },
        None => {},
    }
}

/// A line without a program name gives no ticks.
pub proof fn lemma_no_ticks(stat: Seq<char>)
    requires
        forall|i: int| 0 <= i < stat.len() ==> #[trigger] stat[i] != ')',
    ensures
        stat_ticks(stat) == (0nat, 0nat),
        name_is_followed(stat),
        times_fit(stat),
{
    text::lemma_last_index(stat, ')');
}

/// The times are too large just where a number of ticks is above
/// 18446744073709.
pub proof fn lemma_times_fit(stat: Seq<char>)
    ensures
        times_fit(stat) <==> stat_ticks(stat).0 <= 18_446_744_073_709 && stat_ticks(stat).1
            <= 18_446_744_073_709,
        TICKS_PER_SEC == 100,
{
}

/// The resident set size is the number behind `VmRSS:`, on the first line that
/// starts so; without such a line it is 0.
pub proof fn lemma_rss_behind_label(status: Seq<char>, i: int)
    ensures
        ({
            let l = scan::lines(status);
            &&& (forall|j: int|
                0 <= j < l.len() ==> !("VmRSS:"@.is_prefix_of(#[trigger] l[j]))) ==> rss_of(status)
                == 0
            &&& 0 <= i < l.len() && "VmRSS:"@.is_prefix_of(l[i]) && (forall|j: int|
                0 <= j < i ==> !("VmRSS:"@.is_prefix_of(#[trigger] l[j]))) ==> {
                let w = scan::words(l[i].skip(6));
                &&& w.len() > 0 ==> rss_of(status) == number_or_zero(w[0])
                &&& w.len() == 0 ==> rss_of(status) == 0
            }
        }),
{
    reveal_strlit("VmRSS:");
    let l = scan::lines(status);
    let labelled = |x: Seq<char>| "VmRSS:"@.is_prefix_of(x);
    lists::lemma_first_index(l, labelled);
    match lists::first_index(l, labelled) {
        Some(k) => {
            assert(labelled(l[k]));
            if 0 <= i < l.len() && labelled(l[i]) {
                if i < k {
                    assert(!labelled(l[i]));
                }
            }
        },
        None => {
            if 0 <= i < l.len() {
                assert(!labelled(l[i]));
            }
        },
    }
}

/// A value is looked up under the first label that is wanted; without one, or
/// without a value at its place, it is 0.
pub proof fn lemma_value_under_label(
    labels: Seq<Seq<char>>,
    values: Seq<Seq<char>>,
    wanted: spec_fn(Seq<char>) -> bool,
    i: int,
)
    ensures
        (forall|j: int| 0 <= j < labels.len() ==> !wanted(#[trigger] labels[j])) ==> labelled(
            labels,
            values,
            wanted,
        ) == 0,
        0 <= i < labels.len() && wanted(labels[i]) && (forall|j: int|
            0 <= j < i ==> !wanted(#[trigger] labels[j])) ==> {
            &&& i < values.len() ==> labelled(labels, values, wanted) == number_or_zero(values[i])
            &&& i >= values.len() ==> labelled(labels, values, wanted) == 0
        },
{
    lists::lemma_first_index(labels, wanted);
    match lists::first_index(labels, wanted) {
        Some(k) => {
            if 0 <= i < labels.len() && wanted(labels[i]) {
                if i < k {
                    assert(!wanted(labels[i]));
                }
            }
        },
        None => {},
    }
}

/// The TCP counts stand on the second `Tcp:` line, under the labels of the
/// first: retransmissions under `RetransSegs`, losses under `InErrs` or
/// `OutRsts`. With fewer such lines there are none.
pub proof fn lemma_tcp_under_labels(snmp: Seq<char>, i: int)
    ensures
        ({
            let t = scan::lines(snmp).filter(|l: Seq<char>| "Tcp:"@.is_prefix_of(l));
            let labels = scan::words(t[0]);
            let values = scan::words(t[1]);
            &&& t.len() < 2 ==> tcp_counts(snmp) == (0nat, 0nat)
            &&& t.len() >= 2 && 0 <= i < labels.len() && i < values.len() && labels[i]
                == "RetransSegs"@ && (forall|j: int|
                0 <= j < i ==> #[trigger] labels[j] != "RetransSegs"@) ==> tcp_counts(snmp).0
                == number_or_zero(values[i])
            &&& t.len() >= 2 && 0 <= i < labels.len() && i < values.len() && (labels[i] == "InErrs"@
                || labels[i] == "OutRsts"@) && (forall|j: int|
                0 <= j < i ==> #[trigger] labels[j] != "InErrs"@ && labels[j] != "OutRsts"@)
                ==> tcp_counts(snmp).1 == number_or_zero(values[i])
            &&& t.len() >= 2 && (forall|j: int|
                0 <= j < labels.len() ==> #[trigger] labels[j] != "RetransSegs"@) ==> tcp_counts(
                snmp,
            ).0 == 0
            &&& t.len() >= 2 && (forall|j: int|
                0 <= j < labels.len() ==> #[trigger] labels[j] != "InErrs"@ && labels[j]
                    != "OutRsts"@) ==> tcp_counts(snmp).1 == 0
        }),
{
    let t = scan::lines(snmp).filter(|l: Seq<char>| "Tcp:"@.is_prefix_of(l));
    let labels = scan::words(t[0]);
    let values = scan::words(t[1]);
    lemma_value_under_label(labels, values, |l: Seq<char>| is_retrans_label(l), i);
    lemma_value_under_label(labels, values, |l: Seq<char>| is_lost_label(l), i);
}

/// What a counter grew by leads from the old reading to the new one; a counter
/// that fell grew by nothing.
pub proof fn lemma_growth_leads_on(before: u64, now: u64)
    ensures
        now >= before ==> before + growth(before, now) == now,
        now <= before ==> growth(before, now) == 0,
{
}

/// A percentage is what the time is in hundredths of the elapsed time, rounded
/// down.
pub proof fn lemma_percent_of_elapsed(delta_us: nat, elapsed_us: u64)
    ensures
        elapsed_us == 0 ==> percent_of(delta_us, elapsed_us) == 0,
        delta_us * 100 > u64::MAX ==> percent_of(delta_us, elapsed_us) == 0,
        elapsed_us > 0 && delta_us * 100 <= u64::MAX ==> percent_of(delta_us, elapsed_us)
            * elapsed_us <= delta_us * 100 < (percent_of(delta_us, elapsed_us) + 1) * elapsed_us,
        elapsed_us > 0 && elapsed_us * 100 <= u64::MAX ==> percent_of(elapsed_us as nat, elapsed_us)
            == 100,
{
    if elapsed_us > 0 {
        let s = delta_us as int * 100;
        let n = elapsed_us as int;
        assert((s / n) * n <= s < (s / n + 1) * n) by (nonlinear_arith)
            requires
                n > 0,
        ;
        assert((n * 100) / n == 100) by (nonlinear_arith)
            requires
                n > 0,
        ;
    }
}

/// The line that reports a snapshot shows every figure behind its own label.
pub proof fn lemma_report_line_shows(
    snap: SystemMetrics,
    rss_gb: Seq<char>,
    bw_mib: Seq<char>,
)
    ensures
        report_line(snap, rss_gb, Some(bw_mib)) == "sys  cpu.user="@ + text::decimal(
            snap.cpu_user_pct as nat,
        ) + "% cpu.sys="@ + text::decimal(snap.cpu_sys_pct as nat) + "% rss_gb="@ + rss_gb
            + " tcp_retrans="@ + text::decimal(snap.tcp_retransmits as nat) + " tcp_lost="@
            + text::decimal(snap.tcp_lost as nat) + " bw_mib="@ + bw_mib + "\n"@,
        report_line(snap, rss_gb, None) == report_line(snap, rss_gb, Some("unsupported"@)),
{
}

} // verus!
