//! What the foreign-language interface makes of its arguments and results.

use vstd::prelude::*;

use crate::text::text_chars;

verus! {

/// What `serde_json::from_str` reads as a list of 64-bit numbers, if it can
/// be read so.
pub uninterp spec fn json_numbers(text: Seq<char>) -> Option<Seq<u64>>;

/// `serde_json::from_str`, asked for a list of 64-bit numbers, gives the list
/// or an error.
#[verifier::external_body]
fn parse_numbers(text: &str) -> (r: Option<Vec<u64>>)
    ensures
        match r {
            Some(v) => json_numbers(text@) == Some(v@),
            None => json_numbers(text@) is None,
        },
{
    serde_json::from_str::<Vec<u64>>(text).ok()
}

/// The numbers that were read; none where the text could not be read.
pub fn numbers_or_none(parsed: Option<Vec<u64>>) -> (v: Vec<u64>)
    ensures
        match parsed {
            Some(x) => v == x,
            None => v@ == Seq::<u64>::empty(),
        },
{
    match parsed {
        Some(x) => x,
        None => Vec::new(),
    }
}

/// The disk groups that a caller gave as JSON: none where the text is absent
/// or cannot be read.
pub fn owned_dg_ids(json: Option<&str>) -> (v: Vec<u64>)
    ensures
        v@ == (match json {
            Some(t) => match json_numbers(t@) {
                Some(x) => x,
                None => Seq::<u64>::empty(),
            },
            None => Seq::<u64>::empty(),
        }),
{
    match json {
        Some(t) => numbers_or_none(parse_numbers(t)),
        None => Vec::new(),
    }
}

/// The seeds that are there.
pub open spec fn present(seeds: Seq<Option<String>>) -> Seq<String> {
    seeds.filter(|s: Option<String>| s is Some).map_values(|s: Option<String>| s->0)
}

/// The seeds that a caller gave, those that are null or not text left out;
/// nothing where none remains.
pub fn usable_seeds(seeds: Vec<Option<String>>) -> (r: Option<Vec<String>>)
    ensures
        match r {
            Some(v) => v@.len() > 0 && v@ == present(seeds@),
            None => present(seeds@).len() == 0,
        },
{
    let ghost all = seeds@;
    let ghost p = |s: Option<String>| s is Some;
    let ghost g = |s: Option<String>| s->0;
    let mut out: Vec<String> = Vec::new();
    proof {
        reveal(Seq::filter);
        assert(out@ =~= present(all.take(0)));
    }
    for s in it: seeds
        invariant
            it.seq() == all,
            p == (|s: Option<String>| s is Some),
            g == (|s: Option<String>| s->0),
            out@ == present(all.take(it.index() as int)),
    {
        proof {
            let i = it.index() as int;
            let t = all.take(i);
            assert(all.take(i + 1) =~= t.push(all[i]));
            t.lemma_filter_push(all[i], p);
            assert(t.filter(p).push(all[i]).map_values(g) =~= t.filter(p).map_values(g).push(
                g(all[i]),
            ));
        }
        if let Some(x) = s {
            out.push(x);
        }
    }
    assert(all.take(all.len() as int) =~= all);
    if out.len() > 0 {
        Some(out)
    } else {
        None
    }
}

/// What is handed to a callback: a status, 0 for success, and the result.
#[derive(Debug, Clone, PartialEq, Eq)]
pub struct Completion {
    pub status: i32,
    pub json: Option<String>,
}

/// The result of an operation as it is handed to a callback. Text with a zero
/// character cannot be handed over; an empty object takes its place.
pub fn completion(result: Result<String, String>) -> (c: Completion)
    ensures
        match result {
            Ok(t) => c.status == 0 && (c.json matches Some(j) && if t@.contains('\0') {
                j@ == "{}"@
            } else {
                j == t
            }),
            Err(_) => c.status == -1 && c.json is None,
        },
{
    match result {
        Ok(t) => {
            let v = text_chars(t.as_str());
            let mut i: usize = 0;
            let mut zero = false;
            while i < v.len() && !zero
                invariant
                    i <= v@.len(),
                    v@ == t@,
                    zero ==> t@.contains('\0'),
                    !zero ==> forall|j: int| 0 <= j < i ==> v@[j] != '\0',
                decreases v@.len() - i,
            {
                if v[i] == '\0' {
                    assert(t@[i as int] == '\0');
                    zero = true;
                }
                i = i + 1;
            }
            if zero {
                Completion { status: 0, json: Some("{}".to_owned()) }
            } else {
                Completion { status: 0, json: Some(t) }
            }
        },
        Err(_) => Completion { status: -1, json: None },
    }
}

/// Whether a heartbeat call can be made: its client and endpoint are there.
pub fn heartbeat_accepted(client_is_null: bool, endpoint: Option<&str>) -> (r: bool)
    ensures
        r == (!client_is_null && endpoint is Some),
{
    !client_is_null && endpoint.is_some()
}

/// The seeds that are there are kept in their order.
pub proof fn lemma_present_seeds(seeds: Seq<Option<String>>, s: String)
    ensures
        present(Seq::empty()).len() == 0,
        present(seeds.push(Some(s))) == present(seeds).push(s),
        present(seeds.push(None)) == present(seeds),
{
    reveal(Seq::filter);
    assert(seeds.push(Some(s)).drop_last() =~= seeds);
    assert(seeds.push(None).drop_last() =~= seeds);
    assert(present(seeds.push(Some(s))) =~= present(seeds).push(s));
    assert(present(seeds.push(None)) =~= present(seeds));
}

} // verus!
