//! Endpoints: `host:port`, with or without a scheme.

use vstd::prelude::*;

#[allow(unused_imports)]
use crate::text;
use crate::text::{find_last, parse_i32, replace_first, starts_with, strip_prefix, text_chars, text_of};

verus! {

/// `s` has one of the two schemes.
pub open spec fn has_scheme(s: Seq<char>) -> bool {
    "http://"@.is_prefix_of(s) || "https://"@.is_prefix_of(s)
}

/// `s` with a scheme, and with the loopback address in place of the
/// all-interfaces address.
pub open spec fn normalized(s: Seq<char>) -> Seq<char> {
    text::replaced_first(with_scheme(s), "://0.0.0.0:"@, "://127.0.0.1:"@)
}

/// `s` without its scheme.
pub open spec fn without_scheme(s: Seq<char>) -> Seq<char> {
    if "http://"@.is_prefix_of(s) {
        s.skip("http://"@.len() as int)
    } else if "https://"@.is_prefix_of(s) {
        s.skip("https://"@.len() as int)
    } else {
        s
    }
}

/// `s` with a scheme.
pub open spec fn with_scheme(s: Seq<char>) -> Seq<char> {
    if has_scheme(s) {
        s
    } else {
        "http://"@ + s
    }
}

/// `needle` occurs in `s` once or not at all.
pub open spec fn occurs_once_at_most(s: Seq<char>, needle: Seq<char>) -> bool {
    forall|i: int, j: int|
        #![trigger text::occurs_at(s, needle, i), text::occurs_at(s, needle, j)]
        text::occurs_at(s, needle, i) && text::occurs_at(s, needle, j) ==> i == j
}

/// An occurrence, character by character.
proof fn lemma_occurs_at(s: Seq<char>, needle: Seq<char>, i: int)
    ensures
        text::occurs_at(s, needle, i) == (0 <= i && i + needle.len() <= s.len() && forall|k: int|
            0 <= k < needle.len() ==> #[trigger] needle[k] == s[i + k]),
{
    if 0 <= i && i + needle.len() <= s.len() {
        let part = s.subrange(i, i + needle.len());
        if forall|k: int| 0 <= k < needle.len() ==> #[trigger] needle[k] == s[i + k] {
            assert(part =~= needle);
        }
        if part == needle {
            assert forall|k: int| 0 <= k < needle.len() implies #[trigger] needle[k] == s[i + k] by {
                assert(part[k] == s[i + k]);
            }
        }
    }
}

/// What is rewritten, where and by what.
proof fn lemma_literals()
    ensures
        "http://"@ =~= seq!['h', 't', 't', 'p', ':', '/', '/'],
        "https://"@ =~= seq!['h', 't', 't', 'p', 's', ':', '/', '/'],
        "0.0.0.0:"@ =~= seq!['0', '.', '0', '.', '0', '.', '0', ':'],
        "://0.0.0.0:"@ =~= seq![':', '/', '/', '0', '.', '0', '.', '0', '.', '0', ':'],
        "://127.0.0.1:"@ =~= seq![
            ':',
            '/',
            '/',
            '1',
            '2',
            '7',
            '.',
            '0',
            '.',
            '0',
            '.',
            '1',
            ':',
        ],
{
    reveal_strlit("http://");
    reveal_strlit("https://");
    reveal_strlit("0.0.0.0:");
    reveal_strlit("://0.0.0.0:");
    reveal_strlit("://127.0.0.1:");
}

/// A scheme brings no all-interfaces address with it.
proof fn lemma_scheme_adds_no_address(s: Seq<char>)
    requires
        occurs_once_at_most(s, "0.0.0.0:"@),
    ensures
        occurs_once_at_most(with_scheme(s), "0.0.0.0:"@),
        has_scheme(with_scheme(s)),
{
    let address = "0.0.0.0:"@;
    let w = with_scheme(s);
    lemma_literals();
    if !has_scheme(s) {
        assert forall|i: int| #[trigger] text::occurs_at(w, address, i) implies text::occurs_at(
            s,
            address,
            i - 7,
        ) by {
            lemma_occurs_at(w, address, i);
            lemma_occurs_at(s, address, i - 7);
            assert(address[0] == '0' && address[7] == ':');
            assert(w[i + 0] == '0');
            assert(i >= 7);
            assert forall|k: int| 0 <= k < address.len() implies #[trigger] address[k] == s[i - 7
                + k] by {
                assert(w[i + k] == s[i + k - 7]);
            }
        }
        assert forall|i: int, j: int|
            #![trigger text::occurs_at(w, address, i), text::occurs_at(w, address, j)]
            text::occurs_at(w, address, i) && text::occurs_at(w, address, j) implies i == j by {
            assert(text::occurs_at(s, address, i - 7));
            assert(text::occurs_at(s, address, j - 7));
        }
        assert("http://"@.is_prefix_of(w));
    }
}

/// Where the address is rewritten, none is left.
proof fn lemma_rewritten(w: Seq<char>, i: int)
    requires
        occurs_once_at_most(w, "0.0.0.0:"@),
        text::occurs_at(w, "://0.0.0.0:"@, i),
    ensures
        ({
            let r = w.take(i) + "://127.0.0.1:"@ + w.skip(i + "://0.0.0.0:"@.len());
            forall|j: int| !#[trigger] text::occurs_at(r, "://0.0.0.0:"@, j)
        }),
{
    let address = "0.0.0.0:"@;
    let needle = "://0.0.0.0:"@;
    let by = "://127.0.0.1:"@;
    lemma_literals();
    let r = w.take(i) + by + w.skip(i + needle.len());
    lemma_occurs_at(w, needle, i);
    lemma_occurs_at(w, address, i + 3);
    assert forall|k: int| 0 <= k < address.len() implies #[trigger] address[k] == w[i + 3 + k] by {
        assert(needle[k + 3] == w[i + (k + 3)]);
    }
    assert(text::occurs_at(w, address, i + 3));
    assert forall|j: int| !#[trigger] text::occurs_at(r, needle, j) by {
        if text::occurs_at(r, needle, j) {
            lemma_occurs_at(r, needle, j);
            let k = j + 3;
            assert forall|m: int| 0 <= m < address.len() implies #[trigger] address[m] == r[k
                + m] by {
                assert(needle[m + 3] == r[j + (m + 3)]);
            }
            assert(w[i] == ':') by {
                assert(needle[0] == w[i + 0]);
            }
            if k + 8 <= i + 1 {
                lemma_occurs_at(w, address, k);
                assert forall|m: int| 0 <= m < address.len() implies #[trigger] address[m] == w[k
                    + m] by {
                    assert(r[k + m] == w[k + m]);
                }
                assert(text::occurs_at(w, address, k));
            } else if k >= i + 13 {
                lemma_occurs_at(w, address, k - 2);
                assert forall|m: int| 0 <= m < address.len() implies #[trigger] address[m] == w[k
                    - 2 + m] by {
                    assert(r[k + m] == w[k + m - 2]);
                }
                assert(text::occurs_at(w, address, k - 2));
            } else if k < i {
                assert(address[i - k] == r[k + (i - k)]);
                assert(r[i] == by[0]);
            } else {
                let d = k - i;
                assert(address[0] == r[k + 0]);
                assert(r[k] == by[d]);
                assert(d == 7 || d == 9);
                assert(address[11 - d] == r[k + (11 - d)]);
                assert(r[i + 11] == by[11]);
            }
        }
    }
}

/// The scheme stays where the address is rewritten.
proof fn lemma_scheme_kept(w: Seq<char>, i: int)
    requires
        has_scheme(w),
        text::occurs_at(w, "://0.0.0.0:"@, i),
    ensures
        has_scheme(w.take(i) + "://127.0.0.1:"@ + w.skip(i + "://0.0.0.0:"@.len())),
{
    let needle = "://0.0.0.0:"@;
    let by = "://127.0.0.1:"@;
    lemma_literals();
    let r = w.take(i) + by + w.skip(i + needle.len());
    lemma_occurs_at(w, needle, i);
    assert(needle[0] == w[i + 0] && needle[1] == w[i + 1] && needle[2] == w[i + 2]);
    assert(by[0] == ':' && by[1] == '/' && by[2] == '/');
    if "http://"@.is_prefix_of(w) {
        let p = "http://"@;
        assert(w.take(7) =~= p);
        assert forall|k: int| 0 <= k < 7 implies p[k] == #[trigger] w[k] by {
            assert(w.take(7)[k] == w[k]);
        }
        assert(w[0] == 'h' && w[1] == 't' && w[2] == 't' && w[3] == 'p' && w[4] == ':' && w[5]
            == '/' && w[6] == '/');
        assert(i == 4 || i >= 7);
        assert(r.take(7) =~= p);
        assert(p.is_prefix_of(r));
    } else {
        let p = "https://"@;
        assert(w.take(8) =~= p);
        assert forall|k: int| 0 <= k < 8 implies p[k] == #[trigger] w[k] by {
            assert(w.take(8)[k] == w[k]);
        }
        assert(w[0] == 'h' && w[1] == 't' && w[2] == 't' && w[3] == 'p' && w[4] == 's' && w[5]
            == ':' && w[6] == '/' && w[7] == '/');
        assert(i == 5 || i >= 8);
        assert(r.take(8) =~= p);
        assert(p.is_prefix_of(r));
    }
}

/// An endpoint that names the all-interfaces address once at most is normalized
/// to one with a scheme and without that address, and that one is normal
/// already.
pub proof fn lemma_normalized(s: Seq<char>)
    requires
        occurs_once_at_most(s, "0.0.0.0:"@),
    ensures
        has_scheme(normalized(s)),
        forall|j: int| !#[trigger] text::occurs_at(normalized(s), "://0.0.0.0:"@, j),
        normalized(normalized(s)) == normalized(s),
{
    let needle = "://0.0.0.0:"@;
    let w = with_scheme(s);
    lemma_scheme_adds_no_address(s);
    match text::first_occurrence(w, needle, 0) {
        Some(i) => {
            text::lemma_first_occurrence(w, needle, 0);
            lemma_rewritten(w, i);
            lemma_scheme_kept(w, i);
        },
        None => {
            assert forall|j: int| !#[trigger] text::occurs_at(w, needle, j) by {
                if text::occurs_at(w, needle, j) {
                    text::lemma_occurrence_found(w, needle, 0, j);
                }
            }
        },
    }
    text::lemma_first_occurrence(normalized(s), needle, 0);
}

/// An endpoint with a scheme that does not name the all-interfaces address as a
/// host is left as it is.
pub proof fn lemma_normal_unchanged(s: Seq<char>)
    requires
        has_scheme(s),
        forall|j: int| !#[trigger] text::occurs_at(s, "://0.0.0.0:"@, j),
    ensures
        normalized(s) == s,
{
    text::lemma_first_occurrence(s, "://0.0.0.0:"@, 0);
}

/// Every port of all interfaces is reached over the loopback address, whether
/// the endpoint names a scheme or not.
pub proof fn lemma_all_interfaces_rewritten(port: Seq<char>)
    ensures
        normalized("0.0.0.0:"@ + port) == "http://127.0.0.1:"@ + port,
        normalized("http://0.0.0.0:"@ + port) == "http://127.0.0.1:"@ + port,
        normalized("https://0.0.0.0:"@ + port) == "https://127.0.0.1:"@ + port,
{
    let needle = "://0.0.0.0:"@;
    lemma_literals();
    reveal_strlit("http://0.0.0.0:");
    reveal_strlit("https://0.0.0.0:");
    reveal_strlit("http://127.0.0.1:");
    reveal_strlit("https://127.0.0.1:");
    let bare = "0.0.0.0:"@ + port;
    let w = "http://0.0.0.0:"@ + port;
    let ws = "https://0.0.0.0:"@ + port;
    assert(!has_scheme(bare)) by {
        assert(bare[0] == '0');
        assert("http://"@[0] == 'h' && "https://"@[0] == 'h');
    }
    assert("http://"@ + bare =~= w);
    assert("http://"@.is_prefix_of(w));
    assert("https://"@.is_prefix_of(ws));
    assert(w.subrange(4, 15) =~= needle);
    assert(ws.subrange(5, 16) =~= needle);
    lemma_first_colon(w, 4);
    lemma_first_colon(ws, 5);
    assert(w.take(4) + "://127.0.0.1:"@ + w.skip(4int + needle.len()) =~= "http://127.0.0.1:"@ + port);
    assert(ws.take(5) + "://127.0.0.1:"@ + ws.skip(5int + needle.len()) =~= "https://127.0.0.1:"@
        + port);
}

/// The rewritten part starts at the first colon.
proof fn lemma_first_colon(w: Seq<char>, at: int)
    requires
        text::occurs_at(w, "://0.0.0.0:"@, at),
        forall|k: int| 0 <= k < at ==> w[k] != ':',
    ensures
        text::first_occurrence(w, "://0.0.0.0:"@, 0) == Some(at),
{
    let needle = "://0.0.0.0:"@;
    lemma_literals();
    text::lemma_occurrence_found(w, needle, 0, at);
    text::lemma_first_occurrence(w, needle, 0);
    let i = text::first_occurrence(w, needle, 0)->0;
    lemma_occurs_at(w, needle, i);
    assert(needle[0] == w[i + 0]);
}

/// The part of `s` before its last colon.
pub open spec fn host_part(s: Seq<char>) -> Seq<char> {
    s.take(text::last_index(s, ':')->0)
}

/// The part of `s` behind its last colon.
pub open spec fn port_part(s: Seq<char>) -> Seq<char> {
    s.skip(text::last_index(s, ':')->0 + 1)
}

/// `s` with a scheme, and with the loopback address in place of the
/// all-interfaces address.
pub fn normalize_endpoint(endpoint: &str) -> (r: String)
    ensures
        r@ == normalized(endpoint@),
{
    let with_scheme = if starts_with(endpoint, "http://") || starts_with(endpoint, "https://") {
        endpoint.to_owned()
    } else {
        let mut s = "http://".to_owned();
        s.append(endpoint);
        s
    };
    replace_first(with_scheme.as_str(), "://0.0.0.0:", "://127.0.0.1:")
}

/// Cuts `s` at its last colon.
pub fn split_port(s: &str) -> (r: Option<(String, String)>)
    ensures
        match r {
            Some((host, port)) => text::last_index(s@, ':') is Some && host@ == host_part(s@)
                && port@ == port_part(s@),
            None => text::last_index(s@, ':') is None,
        },
{
    let v = text_chars(s);
    match find_last(&v, ':') {
        Some(i) => {
            let n: usize = v.len();
            let host = text_of(&v, 0, i);
            let port = text_of(&v, i + 1, n);
            assert(host@ =~= host_part(s@));
            assert(port@ =~= port_part(s@));
            Some((host, port))
        },
        None => None,
    }
}

/// `s` without its scheme.
pub fn strip_scheme(s: &str) -> (r: String)
    ensures
        r@ == without_scheme(s@),
{
    match strip_prefix(s, "http://") {
        Some(t) => t,
        None => match strip_prefix(s, "https://") {
            Some(t) => t,
            None => s.to_owned(),
        },
    }
}

/// The host and port of an endpoint; where it has none, the reason.
pub fn parse_endpoint(endpoint: &str) -> (r: Result<(String, i32), String>)
    ensures
        ({
            let s = without_scheme(endpoint@);
            match r {
                Ok((host, port)) => text::last_index(s, ':') is Some && host@ == host_part(s)
                    && text::parsed_i32(port_part(s)) == Some(port as int),
                Err(reason) => if text::last_index(s, ':') is None {
                    reason@ == "invalid endpoint: "@ + endpoint@
                } else {
                    text::parsed_i32(port_part(s)) is None && reason@
                        == "invalid port in endpoint: "@ + endpoint@
                },
            }
        }),
{
    let rest = strip_scheme(endpoint);
    match split_port(rest.as_str()) {
        Some((host, port)) => match parse_i32(port.as_str()) {
            Some(n) => Ok((host, n)),
            None => {
                let mut reason = "invalid port in endpoint: ".to_owned();
                reason.append(endpoint);
                Err(reason)
            },
        },
        None => {
            let mut reason = "invalid endpoint: ".to_owned();
            reason.append(endpoint);
            Err(reason)
        },
    }
}

/// What a map of endpoints says.
pub open spec fn endpoint_map(m: Map<u64, String>) -> Map<u64, Seq<char>> {
    m.map_values(|s: String| s@)
}

/// Taking the scheme off an endpoint undoes putting it on.
pub proof fn lemma_scheme_on_and_off(s: Seq<char>)
    ensures
        without_scheme("http://"@ + s) == s,
        without_scheme("https://"@ + s) == s,
        !has_scheme(s) ==> without_scheme(s) == s,
        !has_scheme(s) ==> without_scheme(with_scheme(s)) == s,
        has_scheme(s) ==> with_scheme(s) == s,
        has_scheme(s) <==> "http://"@.is_prefix_of(s) || "https://"@.is_prefix_of(s),
{
    lemma_literals();
    let a = "http://"@ + s;
    let b = "https://"@ + s;
    assert(a.take(7) =~= "http://"@);
    assert("http://"@.is_prefix_of(a));
    assert(a.skip(7) =~= s);
    assert(b.take(8) =~= "https://"@);
    assert("https://"@.is_prefix_of(b));
    assert(b.skip(8) =~= s);
    assert(!"http://"@.is_prefix_of(b)) by {
        assert(b[4] == 's');
        assert("http://"@[4] == ':');
    }
}

/// An endpoint is cut at its last colon: host and port make it up again, and
/// the port has no colon.
pub proof fn lemma_host_and_port(s: Seq<char>)
    requires
        text::last_index(s, ':') is Some,
    ensures
        host_part(s) + seq![':'] + port_part(s) == s,
        !port_part(s).contains(':'),
{
    text::lemma_last_index(s, ':');
    let i = text::last_index(s, ':')->0;
    assert(host_part(s) + seq![':'] + port_part(s) =~= s);
    if port_part(s).contains(':') {
        let j = port_part(s).index_of(':');
        assert(s[i + 1 + j] == ':');
    }
}

/// A map of endpoints says what its entries say.
pub proof fn lemma_endpoint_map(m: Map<u64, String>, k: u64)
    ensures
        endpoint_map(m).contains_key(k) <==> m.contains_key(k),
        m.contains_key(k) ==> endpoint_map(m)[k] == m[k]@,
{
}

} // verus!
