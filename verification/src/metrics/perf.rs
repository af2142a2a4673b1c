//! Memory-controller events: how they are encoded, and what the kernel's
//! device files say of them.

use vstd::prelude::*;

use crate::scan::{split_pieces, trim};
#[allow(unused_imports)]
use crate::scan;
#[allow(unused_imports)]
use crate::text;
use crate::text::{parse_i32, parse_unsigned, starts_with, strip_prefix, text_chars};

verus! {

/// The configuration word of a data-fabric event: bits 0 to 7 of the event
/// in bits 0 to 7, bits 8 to 11 in bits 32 to 35, bits 12 and 13 in bits 59
/// and 60, and the unit mask from bit 8 on.
pub fn amd_df_config(event: u64, umask: u64) -> (config: u64)
    ensures
        config == (umask << 8) | (event & 0xFF) | (((event >> 8) & 0x0F) << 32) | (((event >> 12)
            & 0x03) << 59),
        umask <= 0xFF ==> {
            &&& config & 0xFF == event & 0xFF
            &&& (config >> 8) & 0xFF == umask
            &&& (config >> 32) & 0x0F == (event >> 8) & 0x0F
            &&& (config >> 59) & 0x03 == (event >> 12) & 0x03
        },
{
    let low: u64 = event & 0xFF;
    let mid: u64 = (event >> 8) & 0x0F;
    let high: u64 = (event >> 12) & 0x03;
    let config: u64 = (umask << 8) | low | (mid << 32) | (high << 59);
    assert(umask <= 0xFF && config == (umask << 8) | (event & 0xFF) | (((event >> 8) & 0x0F) << 32)
        | (((event >> 12) & 0x03) << 59) ==> config & 0xFF == event & 0xFF && (config >> 8) & 0xFF
        == umask && (config >> 32) & 0x0F == (event >> 8) & 0x0F && (config >> 59) & 0x03 == (event
        >> 12) & 0x03) by (bit_vector);
    config
}

/// The event codes of the eight memory channels of the data fabric.
pub const AMD_DF_CHANNELS: [u64; 8] = [0x07, 0x47, 0x87, 0xc7, 0x107, 0x147, 0x187, 0x1c7];

/// The unit mask of the memory-channel events.
pub const AMD_DF_UMASK: u64 = 0x38;

/// The configuration words of the memory-channel events.
pub fn amd_df_channel_events() -> (v: Vec<u64>)
    ensures
        v@.len() == 8,
        forall|i: int|
            0 <= i < 8 ==> #[trigger] v@[i] == (AMD_DF_UMASK << 8) | (AMD_DF_CHANNELS@[i] & 0xFF) | (((
            AMD_DF_CHANNELS@[i] >> 8) & 0x0F) << 32) | (((AMD_DF_CHANNELS@[i] >> 12) & 0x03) << 59),
{
    let mut v: Vec<u64> = Vec::new();
    let mut i: usize = 0;
    while i < 8
        invariant
            i <= 8,
            v@.len() == i,
            forall|j: int|
                0 <= j < i ==> #[trigger] v@[j] == (AMD_DF_UMASK << 8) | (AMD_DF_CHANNELS@[j] & 0xFF) | (((
                AMD_DF_CHANNELS@[j] >> 8) & 0x0F) << 32) | (((AMD_DF_CHANNELS@[j] >> 12) & 0x03)
                    << 59),
        decreases 8 - i,
    {
        v.push(amd_df_config(AMD_DF_CHANNELS[i], AMD_DF_UMASK));
        i = i + 1;
    }
    v
}

/// The value of the hexadecimal digit `c`.
pub open spec fn hex_value(c: char) -> Option<int> {
    if '0' <= c <= '9' {
        Some(c as int - '0' as int)
    } else if 'a' <= c <= 'f' {
        Some(c as int - 'a' as int + 10)
    } else if 'A' <= c <= 'F' {
        Some(c as int - 'A' as int + 10)
    } else {
        None
    }
}

/// The number that the hexadecimal digits `s` write down, if they are digits.
pub open spec fn hex_number(s: Seq<char>) -> Option<int>
    decreases s.len(),
{
    if s.len() == 0 {
        Some(0)
    } else {
        match (hex_number(s.drop_last()), hex_value(s.last())) {
            (Some(n), Some(d)) => Some(n * 16 + d),
            _ => None,
        }
    }
}

/// `s` read as a hexadecimal number of 64 bits: an optional plus sign, then
/// one or more digits.
pub open spec fn parsed_hex(s: Seq<char>) -> Option<int> {
    let d = text::unsigned_digits(s);
    if d.len() == 0 {
        None
    } else {
        match hex_number(d) {
            Some(n) => if n <= u64::MAX {
                Some(n)
            } else {
                None
            },
            None => None,
        }
    }
}

/// `s` without any `0x` at its start.
pub open spec fn without_0x(s: Seq<char>) -> Seq<char>
    decreases s.len(),
{
    if s.len() >= 2 && s[0] == '0' && s[1] == 'x' {
        without_0x(s.skip(2))
    } else {
        s
    }
}

proof fn lemma_hex_grows(s: Seq<char>, i: int)
    requires
        0 <= i <= s.len(),
        hex_number(s) is Some,
    ensures
        hex_number(s.take(i)) is Some,
        0 <= hex_number(s.take(i))->0 <= hex_number(s)->0,
    decreases s.len(),
{
    if i == s.len() {
        assert(s.take(i) =~= s);
        if s.len() > 0 {
            lemma_hex_grows(s.drop_last(), s.len() - 1);
            assert(s.drop_last().take(s.len() - 1) =~= s.drop_last());
        }
    } else {
        lemma_hex_grows(s.drop_last(), i);
        assert(s.drop_last().take(i) =~= s.take(i));
    }
}

fn digit_value(c: char) -> (r: Option<u64>)
    ensures
        match r {
            Some(d) => hex_value(c) == Some(d as int) && d < 16,
            None => hex_value(c) is None,
        },
{
    if '0' <= c && c <= '9' {
        Some((c as u32 - 48) as u64)
    } else if 'a' <= c && c <= 'f' {
        Some((c as u32 - 87) as u64)
    } else if 'A' <= c && c <= 'F' {
        Some((c as u32 - 55) as u64)
    } else {
        None
    }
}

/// Reads the characters `v` from `from` on, without any `0x` at their start,
/// as a hexadecimal number.
fn parse_hex(v: &Vec<char>, from: usize) -> (r: Option<u64>)
    requires
        from <= v@.len(),
    ensures
        r is Some <==> parsed_hex(without_0x(v@.skip(from as int))) is Some,
        r matches Some(n) ==> n == parsed_hex(without_0x(v@.skip(from as int)))->0,
{
    let mut a: usize = from;
    let n: usize = v.len();
    while n - a >= 2 && v[a] == '0' && v[a + 1] == 'x'
        invariant
            from <= a <= n == v@.len(),
            without_0x(v@.skip(from as int)) == without_0x(v@.skip(a as int)),
        decreases n - a,
    {
        assert(v@.skip(a as int).skip(2) =~= v@.skip(a + 2));
        a = a + 2;
    }
    let ghost s = v@.skip(a as int);
    assert(without_0x(v@.skip(from as int)) == s);
    if a < n && v[a] == '+' {
        assert(v@.skip(a + 1) =~= s.drop_first());
        a = a + 1;
    }
    let ghost d = text::unsigned_digits(s);
    assert(d == v@.skip(a as int));
    if a == n {
        return None;
    }
    let mut acc: u64 = 0;
    let mut i: usize = a;
    assert(d.take(0) =~= Seq::<char>::empty());
    while i < n
        invariant
            a <= i <= n == v@.len(),
            d == v@.skip(a as int),
            d.len() > 0,
            s == without_0x(v@.skip(from as int)),
            d == text::unsigned_digits(s),
            hex_number(d.take(i - a)) == Some(acc as int),
        decreases n - i,
    {
        let ghost t = d.take(i - a + 1);
        assert(t.drop_last() =~= d.take(i - a));
        assert(t.last() == v@[i as int]);
        match digit_value(v[i]) {
            Some(x) => {
                assert(hex_number(t) == Some(acc * 16 + x));
                if acc > (u64::MAX - x) / 16 {
                    proof {
                        if hex_number(d) is Some {
                            lemma_hex_grows(d, i - a + 1);
                        }
                    }
                    return None;
                }
                acc = acc * 16 + x;
            },
            None => {
                proof {
                    if hex_number(d) is Some {
                        lemma_hex_grows(d, i - a + 1);
                    }
                }
                return None;
            },
        }
        i = i + 1;
    }
    assert(d.take(i - a) =~= d);
    Some(acc)
}

/// An event code and unit mask as far as they have been read.
pub struct EventFields {
    pub event: u64,
    pub umask: u64,
}

/// One more part of an event description: `event=` or `umask=` with a
/// hexadecimal number; other parts are passed over.
pub open spec fn event_part(before: Option<EventFields>, part: Seq<char>) -> Option<EventFields> {
    match before {
        None => None,
        Some(f) => if "event="@.is_prefix_of(part) {
            match parsed_hex(without_0x(part.skip(6))) {
                Some(n) => Some(EventFields { event: n as u64, ..f }),
                None => None,
            }
        } else if "umask="@.is_prefix_of(part) {
            match parsed_hex(without_0x(part.skip(6))) {
                Some(n) => Some(EventFields { umask: n as u64, ..f }),
                None => None,
            }
        } else {
            Some(f)
        },
    }
}

/// The fields that the parts of an event description give, one by one.
pub open spec fn event_fields(parts: Seq<Seq<char>>) -> Option<EventFields>
    decreases parts.len(),
{
    if parts.len() == 0 {
        Some(EventFields { event: 0, umask: 0 })
    } else {
        event_part(event_fields(parts.drop_last()), parts.last())
    }
}

/// Once a part cannot be read, neither can the whole.
proof fn lemma_event_fields_fail(parts: Seq<Seq<char>>, n: int)
    requires
        0 <= n <= parts.len(),
        event_fields(parts.take(n)) is None,
    ensures
        event_fields(parts) is None,
    decreases parts.len(),
{
    if n == parts.len() {
        assert(parts.take(n) =~= parts);
    } else {
        assert(parts.drop_last().take(n) =~= parts.take(n));
        lemma_event_fields_fail(parts.drop_last(), n);
    }
}

/// The configuration word of an event whose description the kernel gives as
/// `content`, such as `event=0x04,umask=0x03`.
pub fn parse_event_config(content: &str) -> (r: Option<u64>)
    ensures
        match event_fields(scan::pieces(scan::trimmed(content@), ',')) {
            Some(f) => r == Some((f.umask << 8) | f.event),
            None => r is None,
        },
{
    let body = trim(content);
    let parts = split_pieces(body.as_str(), ',');
    let ghost all = scan::texts(parts@);
    let mut event: u64 = 0;
    let mut umask: u64 = 0;
    let mut i: usize = 0;
    proof {
        reveal_strlit("event=");
        reveal_strlit("umask=");
        assert(all.take(0) =~= Seq::<Seq<char>>::empty());
    }
    while i < parts.len()
        invariant
            i <= parts@.len(),
            all == scan::texts(parts@),
            all == scan::pieces(scan::trimmed(content@), ','),
            "event="@.len() == 6,
            "umask="@.len() == 6,
            event_fields(all.take(i as int)) == Some(EventFields { event, umask }),
        decreases parts@.len() - i,
    {
        let ghost t = all.take(i + 1);
        let ghost part = parts@[i as int]@;
        assert(t.drop_last() =~= all.take(i as int));
        assert(t.last() == part);
        let v = text_chars(parts[i].as_str());
        if starts_with(parts[i].as_str(), "event=") {
            match parse_hex(&v, 6) {
                Some(n) => {
                    event = n;
                },
                None => {
                    proof {
                        lemma_event_fields_fail(all, i + 1);
                    }
                    return None;
                },
            }
        } else if starts_with(parts[i].as_str(), "umask=") {
            match parse_hex(&v, 6) {
                Some(n) => {
                    umask = n;
                },
                None => {
                    proof {
                        lemma_event_fields_fail(all, i + 1);
                    }
                    return None;
                },
            }
        }
        i = i + 1;
    }
    assert(all.take(i as int) =~= all);
    Some((umask << 8) | event)
}

/// The type number of a measuring unit, from the text of its device file.
pub fn parse_pmu_type(content: &str) -> (r: Option<u32>)
    ensures
        match text::parsed_unsigned(scan::trimmed(content@), u32::MAX as nat) {
            Some(n) => r matches Some(t) && t == n,
            None => r is None,
        },
{
    let body = trim(content);
    match parse_unsigned(body.as_str(), u32::MAX as u64) {
        Some(n) => Some(n as u32),
        None => None,
    }
}

/// The processor of a measuring unit, from the text of its device file; 0
/// where there is no such file or number.
pub fn parse_pmu_cpumask(content: Option<&str>) -> (cpu: i32)
    ensures
        cpu == (match content {
            Some(c) => match text::parsed_i32(scan::trimmed(c@)) {
                Some(n) => n,
                None => 0,
            },
            None => 0,
        }),
{
    match content {
        Some(c) => {
            let body = trim(c);
            match parse_i32(body.as_str()) {
                Some(n) => n,
                None => 0,
            }
        },
        None => 0,
    }
}

/// The device file `entry` of the measuring unit `pmu`.
pub fn pmu_path(pmu: &str, entry: &str) -> (path: String)
    ensures
        path@ == "/sys/bus/event_source/devices/"@ + pmu@ + "/"@ + entry@,
{
    let mut path = "/sys/bus/event_source/devices/".to_owned();
    path.append(pmu);
    path.append("/");
    path.append(entry);
    path
}

/// The growth of all counters since their last readings, at most
/// `u64::MAX`. A counter that fell counts as unchanged.
pub open spec fn summed_growth(before: Seq<u64>, now: Seq<u64>, n: int) -> int
    decreases n,
{
    if n <= 0 {
        0
    } else {
        let d = if now[n - 1] >= before[n - 1] {
            now[n - 1] - before[n - 1]
        } else {
            0
        };
        let s = summed_growth(before, now, n - 1) + d;
        if s > u64::MAX {
            u64::MAX as int
        } else {
            s
        }
    }
}

/// The growth of all counters from `before` to `now`, which `before` is set
/// to.
pub fn counter_growth(before: &mut Vec<u64>, now: &Vec<u64>) -> (total: u64)
    requires
        old(before)@.len() == now@.len(),
    ensures
        total == summed_growth(old(before)@, now@, now@.len() as int),
        final(before)@ == now@,
{
    let ghost start = before@;
    let mut total: u64 = 0;
    let mut i: usize = 0;
    while i < now.len()
        invariant
            i <= now@.len(),
            before@.len() == start.len() == now@.len(),
            total == summed_growth(start, now@, i as int),
            forall|j: int| 0 <= j < i ==> before@[j] == now@[j],
            forall|j: int| i <= j < now@.len() ==> before@[j] == start[j],
        decreases now@.len() - i,
    {
        let delta: u64 = now[i].saturating_sub(before[i]);
        total = total.saturating_add(delta);
        before.set(i, now[i]);
        i = i + 1;
    }
    assert(before@ =~= now@);
    total
}

/// The memory channels of the data fabric and their unit mask.
pub proof fn lemma_channel_codes()
    ensures
        AMD_DF_CHANNELS@ == seq![0x07u64, 0x47, 0x87, 0xc7, 0x107, 0x147, 0x187, 0x1c7],
        AMD_DF_UMASK == 0x38,
        forall|i: int|
            0 <= i < 7 ==> AMD_DF_CHANNELS@[i + 1] == #[trigger] AMD_DF_CHANNELS@[i] + 0x40,
{
    assert forall|i: int| 0 <= i < 7 implies AMD_DF_CHANNELS@[i + 1]
        == #[trigger] AMD_DF_CHANNELS@[i] + 0x40 by {
        assert(i == 0 || i == 1 || i == 2 || i == 3 || i == 4 || i == 5 || i == 6);
    }
    assert(AMD_DF_CHANNELS@ =~= seq![0x07u64, 0x47, 0x87, 0xc7, 0x107, 0x147, 0x187, 0x1c7]);
}

/// The hexadecimal digits, small and capital, are worth 0 to 15, and nothing
/// else is a digit.
pub proof fn lemma_hex_digits(d: int, c: char)
    requires
        0 <= d < 16,
    ensures
        hex_value(text::hex_digit(d)) == Some(d),
        hex_value('0') == Some(0int) && hex_value('9') == Some(9int),
        hex_value('a') == Some(10int) && hex_value('f') == Some(15int),
        hex_value('A') == Some(10int) && hex_value('F') == Some(15int),
        (c as int) < 48 || 57 < (c as int) < 65 || 70 < (c as int) < 97 || 102 < (c as int)
            ==> hex_value(c) is None,
        hex_value(c) is Some ==> 0 <= hex_value(c)->0 < 16,
{
}

/// One more digit makes a hexadecimal number sixteen times as large, and adds
/// its own value.
pub proof fn lemma_hex_by_digit(s: Seq<char>, c: char)
    ensures
        hex_number(Seq::empty()) == Some(0int),
        hex_number(s) is Some && hex_value(c) is Some ==> hex_number(s.push(c)) == Some(
            16 * hex_number(s)->0 + hex_value(c)->0,
        ),
        hex_number(s) is None || hex_value(c) is None ==> hex_number(s.push(c)) is None,
{
    assert(s.push(c).drop_last() =~= s);
}

/// A hexadecimal number is read with or without `0x` in front, and with or
/// without a plus sign behind that. Without a digit, with anything else or
/// above 64 bits there is none.
pub proof fn lemma_hex_is_read(s: Seq<char>)
    ensures
        without_0x(seq!['0', 'x'] + s) == without_0x(s),
        s.len() < 2 || s[0] != '0' || s[1] != 'x' ==> without_0x(s) == s,
        parsed_hex(Seq::empty()) is None,
        parsed_hex(seq!['+']) is None,
        s.len() > 0 && s[0] != '+' && hex_number(s) is Some && hex_number(s)->0 <= u64::MAX
            ==> parsed_hex(s) == hex_number(s) && parsed_hex(seq!['+'] + s) == hex_number(s),
        s.len() > 0 && s[0] != '+' && (hex_number(s) is None || hex_number(s)->0 > u64::MAX)
            ==> parsed_hex(s) is None,
{
    let t = seq!['0', 'x'] + s;
    assert(t.skip(2) =~= s);
    let u = seq!['+'] + s;
    assert(u.drop_first() =~= s);
    assert(seq!['+'].drop_first() =~= Seq::<char>::empty());
}

/// `event=` sets the event code and `umask=` the unit mask, each to the number
/// behind it and without touching the other; any other part changes nothing.
/// Where no number follows, the description is refused.
pub proof fn lemma_event_parts(f: EventFields, value: Seq<char>, other: Seq<char>)
    ensures
        match parsed_hex(without_0x(value)) {
            Some(n) => {
                let e = event_part(Some(f), "event="@ + value);
                let u = event_part(Some(f), "umask="@ + value);
                &&& e is Some && e->0.event == n && e->0.umask == f.umask
                &&& u is Some && u->0.umask == n && u->0.event == f.event
            },
            None => event_part(Some(f), "event="@ + value) is None && event_part(
                Some(f),
                "umask="@ + value,
            ) is None,
        },
        other.len() < 6 || (other.take(6) != "event="@ && other.take(6) != "umask="@)
            ==> event_part(Some(f), other) == Some(f),
        event_part(None, other) is None,
{
    reveal_strlit("event=");
    reveal_strlit("umask=");
    let e = "event="@ + value;
    let u = "umask="@ + value;
    assert(e.skip(6) =~= value);
    assert(u.skip(6) =~= value);
    assert("event="@ =~= e.subrange(0, 6));
    assert("umask="@ =~= u.subrange(0, 6));
    assert("event="@.is_prefix_of(e));
    assert("umask="@.is_prefix_of(u));
    assert(u[0] == 'u' && "event="@[0] == 'e');
    assert(!("event="@.is_prefix_of(u)));
    if parsed_hex(without_0x(value)) is Some {
        lemma_hex_grows(text::unsigned_digits(without_0x(value)), 0);
    }
    if "event="@.is_prefix_of(other) {
        assert(other.take(6) =~= "event="@);
    }
    if "umask="@.is_prefix_of(other) {
        assert(other.take(6) =~= "umask="@);
    }
}

/// An event description is read part by part, from zeros on.
pub proof fn lemma_event_part_by_part(parts: Seq<Seq<char>>, more: Seq<char>)
    ensures
        event_fields(Seq::empty()) == Some(EventFields { event: 0, umask: 0 }),
        event_fields(parts.push(more)) == event_part(event_fields(parts), more),
{
    assert(parts.push(more).drop_last() =~= parts);
}

/// One more counter adds what it grew, and nothing where it fell; the sum stops
/// at the largest number of 64 bits.
pub proof fn lemma_growth_adds_up(before: Seq<u64>, now: Seq<u64>, a: u64, b: u64)
    requires
        before.len() == now.len(),
    ensures
        ({
            let n = now.len() as int;
            let s = summed_growth(before, now, n);
            let t = summed_growth(before.push(a), now.push(b), n + 1);
            &&& 0 <= s <= t <= u64::MAX
            &&& b <= a ==> t == s
            &&& b > a && s + (b - a) <= u64::MAX ==> t == s + (b - a)
            &&& b > a && s + (b - a) > u64::MAX ==> t == u64::MAX
            &&& n == 0 ==> s == 0
        }),
{
    let n = now.len() as int;
    lemma_growth_of_prefix(before, now, a, b, n);
    lemma_growth_bounded(before, now, n);
}

proof fn lemma_growth_bounded(before: Seq<u64>, now: Seq<u64>, n: int)
    ensures
        0 <= summed_growth(before, now, n) <= u64::MAX,
    decreases n,
{
    if n > 0 {
        lemma_growth_bounded(before, now, n - 1);
    }
}

proof fn lemma_growth_of_prefix(before: Seq<u64>, now: Seq<u64>, a: u64, b: u64, n: int)
    requires
        before.len() == now.len(),
        n <= now.len(),
    ensures
        summed_growth(before.push(a), now.push(b), n) == summed_growth(before, now, n),
    decreases n,
{
    if n > 0 {
        lemma_growth_of_prefix(before, now, a, b, n - 1);
    }
}

} // verus!
