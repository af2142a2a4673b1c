//! Collecting the data shards of a strip for parity.

use bytes::Bytes;
use vstd::prelude::*;

#[allow(unused_imports)]
use crate::blocks;
use crate::blocks::slice_of;
use crate::chunk::config::EcScheme;
use crate::chunk::error::IoError;
#[allow(unused_imports)]
use crate::text;
use crate::text::decimal_text;

verus! {

/// The length of the longest shard.
pub open spec fn longest(shards: Seq<Seq<u8>>) -> nat
    decreases shards.len(),
{
    if shards.len() == 0 {
        0
    } else {
        let m = longest(shards.drop_last());
        if shards.last().len() > m {
            shards.last().len()
        } else {
            m
        }
    }
}

/// `s` filled up with zeros to `n` bytes.
pub open spec fn zero_padded(s: Seq<u8>, n: nat) -> Seq<u8> {
    Seq::new(
        n,
        |i: int|
            if i < s.len() {
                s[i]
            } else {
                0u8
            },
    )
}

/// Every shard is at most as long as the longest.
pub proof fn lemma_longest_bounds(shards: Seq<Seq<u8>>, i: int)
    requires
        0 <= i < shards.len(),
    ensures
        shards[i].len() <= longest(shards),
    decreases shards.len(),
{
    if i < shards.len() - 1 {
        lemma_longest_bounds(shards.drop_last(), i);
        assert(shards.drop_last()[i] == shards[i]);
    }
}

/// What the shards hold.
pub open spec fn shard_bytes(v: Seq<Vec<u8>>) -> Seq<Seq<u8>> {
    v.map_values(|x: Vec<u8>| x@)
}

/// Collects the data shards of one strip.
pub struct EcWorker {
    ec_scheme: EcScheme,
    data_shards: Vec<Bytes>,
}

impl EcWorker {
    pub closed spec fn scheme(self) -> EcScheme {
        self.ec_scheme
    }

    /// The shards received so far.
    pub closed spec fn shards(self) -> Seq<Seq<u8>> {
        blocks::contents(self.data_shards@)
    }

    pub fn new(ec_scheme: EcScheme) -> (w: Self)
        ensures
            w.scheme() == ec_scheme,
            w.shards() == Seq::<Seq<u8>>::empty(),
    {
        let w = EcWorker { ec_scheme, data_shards: Vec::new() };
        assert(w.shards() =~= Seq::<Seq<u8>>::empty());
        w
    }

    /// Takes in one more shard. Refuses more than the scheme has.
    pub fn push(&mut self, buffer: &Bytes) -> (r: Result<(), IoError>)
        ensures
            final(self).scheme() == old(self).scheme(),
            match r {
                Ok(_) => old(self).shards().len() < old(self).scheme().data_num
                    && final(self).shards() == old(self).shards().push(blocks::held(*buffer)),
                Err(e) => old(self).shards().len() >= old(self).scheme().data_num
                    && final(self).shards() == old(self).shards() && e.is_ec_failed(
                    "too many data shards: got "@ + text::decimal(
                        (old(self).shards().len() + 1) as nat,
                    ) + ", max "@ + text::decimal(old(self).scheme().data_num as nat),
                ),
            },
    {
        if self.data_shards.len() >= self.ec_scheme.data_num {
            let n: u64 = self.data_shards.len() as u64;
            let mut message = "too many data shards: got ".to_owned();
            message.append(successor_text(n).as_str());
            message.append(", max ");
            message.append(decimal_text(self.ec_scheme.data_num as u64).as_str());
            return Err(IoError::EcEncodeFailed(message));
        }
        let b = buffer.clone();
        self.data_shards.push(b);
        assert(self.shards() =~= old(self).shards().push(blocks::held(*buffer)));
        Ok(())
    }

    /// The data shards to encode: each filled up with zeros to the length of
    /// the longest.
    pub fn padded_shards(&self) -> (out: Vec<Vec<u8>>)
        ensures
            shard_bytes(out@) == self.shards().map_values(
                |s: Seq<u8>| zero_padded(s, longest(self.shards())),
            ),
    {
        let ghost all = self.shards();
        let mut size: usize = 0;
        let mut i: usize = 0;
        assert(all.take(0) =~= Seq::<Seq<u8>>::empty());
        while i < self.data_shards.len()
            invariant
                i <= self.data_shards@.len(),
                all == self.shards(),
                size == longest(all.take(i as int)),
            decreases self.data_shards@.len() - i,
        {
            let n: usize = self.data_shards[i].len();
            assert(all.take(i + 1).drop_last() =~= all.take(i as int));
            assert(all.take(i + 1).last() == blocks::held(self.data_shards@[i as int]));
            if n > size {
                size = n;
            }
            i = i + 1;
        }
        assert(all.take(i as int) =~= all);
        let ghost f = |s: Seq<u8>| zero_padded(s, longest(all));
        let mut out: Vec<Vec<u8>> = Vec::new();
        let mut j: usize = 0;
        assert(shard_bytes(out@) =~= all.take(0).map_values(f));
        while j < self.data_shards.len()
            invariant
                j <= self.data_shards@.len(),
                all == self.shards(),
                size == longest(all),
                f == (|s: Seq<u8>| zero_padded(s, longest(all))),
                shard_bytes(out@) == all.take(j as int).map_values(f),
            decreases self.data_shards@.len() - j,
        {
            proof {
                lemma_longest_bounds(all, j as int);
                assert(all[j as int] == blocks::held(self.data_shards@[j as int]));
            }
            let data = pad(slice_of(&self.data_shards[j]), size);
            proof {
                assert(shard_bytes(out@.push(data)) =~= shard_bytes(out@).push(data@));
                assert(all.take(j + 1).map_values(f) =~= all.take(j as int).map_values(f).push(
                    f(all[j as int]),
                ));
            }
            out.push(data);
            j = j + 1;
        }
        assert(all.take(j as int) =~= all);
        out
    }

    /// The parity that the encoder made of the padded shards, or why it could
    /// not.
    pub fn finish(&self, encoded: Result<Vec<Vec<u8>>, String>) -> (r: Result<
        Vec<Vec<u8>>,
        IoError,
    >)
        ensures
            match encoded {
                Ok(p) => r == Ok::<Vec<Vec<u8>>, IoError>(p),
                Err(t) => r matches Err(e) && e.is_ec_failed(t@),
            },
    {
        match encoded {
            Ok(p) => Ok(p),
            Err(t) => Err(IoError::EcEncodeFailed(t)),
        }
    }

    /// Forgets the shards, for the next strip.
    pub fn reset(&mut self)
        ensures
            final(self).scheme() == old(self).scheme(),
            final(self).shards() == Seq::<Seq<u8>>::empty(),
    {
        self.data_shards.clear();
        assert(self.shards() =~= Seq::<Seq<u8>>::empty());
    }

    pub fn shards_received(&self) -> (n: usize)
        ensures
            n == self.shards().len(),
    {
        self.data_shards.len()
    }

    pub fn ec_scheme(&self) -> (s: EcScheme)
        ensures
            s == self.scheme(),
    {
        self.ec_scheme
    }
}

/// The numeral of the number after `n`.
fn successor_text(n: u64) -> (s: String)
    ensures
        s@ == text::decimal((n + 1) as nat),
{
    if n < u64::MAX {
        decimal_text(n + 1)
    } else {
        let mut s = decimal_text(1_844_674_407_370_955_161);
        s.push('6');
        assert(18_446_744_073_709_551_616nat / 10 == 1_844_674_407_370_955_161nat);
        s
    }
}

/// `s` filled up with zeros to `n` bytes.
fn pad(s: &[u8], n: usize) -> (out: Vec<u8>)
    requires
        s@.len() <= n,
    ensures
        out@ == zero_padded(s@, n as nat),
{
    let mut out: Vec<u8> = Vec::new();
    let mut i: usize = 0;
    while i < n
        invariant
            i <= n,
            s@.len() <= n,
            out@ == zero_padded(s@, n as nat).take(i as int),
        decreases n - i,
    {
        let b: u8 = if i < s.len() {
            s[i]
        } else {
            0
        };
        out.push(b);
        i = i + 1;
        assert(out@ =~= zero_padded(s@, n as nat).take(i as int));
    }
    assert(out@ =~= zero_padded(s@, n as nat));
    out
}

/// Some shard is as long as the longest.
pub proof fn lemma_longest_attained(shards: Seq<Seq<u8>>)
    ensures
        shards.len() == 0 ==> longest(shards) == 0,
        shards.len() > 0 ==> exists|i: int|
            0 <= i < shards.len() && (#[trigger] shards[i]).len() == longest(shards),
    decreases shards.len(),
{
    if shards.len() > 0 {
        let t = shards.drop_last();
        lemma_longest_attained(t);
        if shards.last().len() > longest(t) || t.len() == 0 {
            assert(shards[shards.len() - 1].len() == longest(shards));
        } else {
            let i = choose|i: int| 0 <= i < t.len() && (#[trigger] t[i]).len() == longest(t);
            assert(shards[i] == t[i]);
        }
    }
}

/// Filling up keeps what is there, and adds nothing but zeros behind it.
pub proof fn lemma_padding_keeps_data(s: Seq<u8>, n: nat)
    requires
        s.len() <= n,
    ensures
        zero_padded(s, n).len() == n,
        zero_padded(s, n).take(s.len() as int) == s,
        forall|i: int| s.len() <= i < n ==> zero_padded(s, n)[i] == 0,
{
    assert(zero_padded(s, n).take(s.len() as int) =~= s);
}

/// The shards hold what each of them holds, in their order.
pub proof fn lemma_shards_one_by_one(v: Seq<Vec<u8>>, i: int)
    ensures
        shard_bytes(v).len() == v.len(),
        0 <= i < v.len() ==> shard_bytes(v)[i] == v[i]@,
{
}

} // verus!
