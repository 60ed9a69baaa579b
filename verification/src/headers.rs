//! Header collections. A header block is kept as the ordered sequence of
//! `(name, value)` pairs exactly as it appeared on the wire (or as a handler
//! built it); its meaning as a mapping is last-write-wins, matching how a
//! parser that folds repeated names into a map behaves.

use vstd::prelude::*;
use crate::scan::{crlf_at, at2, bytes_eq};

verus! {

/// One header line: a name and a value.
pub struct Header {
    pub name: Vec<u8>,
    pub value: Vec<u8>,
}

impl View for Header {
    type V = (Seq<u8>, Seq<u8>);

    open spec fn view(&self) -> (Seq<u8>, Seq<u8>) {
        (self.name@, self.value@)
    }
}

/// An ordered header block.
pub struct Headers {
    pub entries: Vec<Header>,
}

impl View for Headers {
    type V = Seq<(Seq<u8>, Seq<u8>)>;

    open spec fn view(&self) -> Seq<(Seq<u8>, Seq<u8>)> {
        self.entries@.map_values(|h: Header| h@)
    }
}

/// The mapping a sequence of header pairs denotes: later pairs win over
/// earlier pairs with the same name.
pub open spec fn map_of(ps: Seq<(Seq<u8>, Seq<u8>)>) -> Map<Seq<u8>, Seq<u8>>
    decreases ps.len(),
{
    if ps.len() == 0 {
        Map::empty()
    } else {
        map_of(ps.drop_last()).insert(ps.last().0, ps.last().1)
    }
}

/// If no pair at index `n` or later has name `k`, the pairs beyond `n` do not
/// affect the mapping at `k`.
pub proof fn lemma_map_of_take(ps: Seq<(Seq<u8>, Seq<u8>)>, n: int, k: Seq<u8>)
    requires
        0 <= n <= ps.len(),
        forall|i: int| n <= i < ps.len() ==> (#[trigger] ps[i]).0 != k,
    ensures
        map_of(ps).contains_key(k) == map_of(ps.take(n)).contains_key(k),
        map_of(ps).contains_key(k) ==> map_of(ps)[k] == map_of(ps.take(n))[k],
    decreases ps.len() - n,
{
    if n == ps.len() {
        assert(ps.take(n) =~= ps);
    } else {
        lemma_map_of_take(ps, n + 1, k);
        assert(ps.take(n + 1).drop_last() =~= ps.take(n));
        assert(ps.take(n + 1).last() == ps[n]);
    }
}

/// If the pair at index `i` has name `k` and no later pair does, the mapping
/// contains `k` with that pair's value.
pub proof fn lemma_map_of_found(ps: Seq<(Seq<u8>, Seq<u8>)>, i: int, k: Seq<u8>)
    requires
        0 <= i < ps.len(),
        ps[i].0 == k,
        forall|j: int| i < j < ps.len() ==> (#[trigger] ps[j]).0 != k,
    ensures
        map_of(ps).contains_key(k),
        map_of(ps)[k] == ps[i].1,
{
    lemma_map_of_take(ps, i + 1, k);
    assert(ps.take(i + 1).drop_last() =~= ps.take(i));
    assert(ps.take(i + 1).last() == ps[i]);
}

/// If no pair has name `k`, the mapping does not contain `k`.
pub proof fn lemma_map_of_absent(ps: Seq<(Seq<u8>, Seq<u8>)>, k: Seq<u8>)
    requires
        forall|i: int| 0 <= i < ps.len() ==> (#[trigger] ps[i]).0 != k,
    ensures
        !map_of(ps).contains_key(k),
{
    lemma_map_of_take(ps, 0, k);
    assert(ps.take(0) =~= Seq::<(Seq<u8>, Seq<u8>)>::empty());
}

/// A header name as it can appear on the wire: free of `\r\n` and of the
/// `": "` separator.
pub open spec fn clean_name(n: Seq<u8>) -> bool {
    (forall|i: int| !crlf_at(n, i)) && (forall|i: int| !at2(n, i, 58, 32))
}

/// A header value as it can appear on the wire: free of `\r\n`.
pub open spec fn clean_value(v: Seq<u8>) -> bool {
    forall|i: int| !crlf_at(v, i)
}

/// Every pair in the block could appear on the wire.
pub open spec fn clean_pairs(ps: Seq<(Seq<u8>, Seq<u8>)>) -> bool {
    forall|i: int| 0 <= i < ps.len() ==> clean_name((#[trigger] ps[i]).0) && clean_value(ps[i].1)
}

impl Headers {
    /// An empty header block.
    pub fn new() -> (r: Headers)
        ensures
            r@ == Seq::<(Seq<u8>, Seq<u8>)>::empty(),
    {
        let r = Headers { entries: Vec::new() };
        proof {
            assert(r@ =~= Seq::<(Seq<u8>, Seq<u8>)>::empty());
        }
        r
    }

    /// The number of header lines.
    pub fn len(&self) -> (r: usize)
        ensures
            r == self@.len(),
    {
        self.entries.len()
    }

    /// Appends one header line at the end of the block. In the block's
    /// mapping the new pair wins over any earlier pair with the same name.
    pub fn put(&mut self, name: Vec<u8>, value: Vec<u8>)
        ensures
            final(self)@ == old(self)@ + seq![(name@, value@)],
            map_of(final(self)@) == map_of(old(self)@).insert(name@, value@),
    {
        let ghost oldv = self@;
        self.entries.push(Header { name, value });
        proof {
            assert(final(self)@ =~= oldv + seq![(name@, value@)]);
            assert(final(self)@.drop_last() =~= oldv);
        }
    }

    /// Looks a name up in the block's mapping: the value of the last pair
    /// with that name, if any.
    pub fn get(&self, name: &[u8]) -> (r: Option<&Vec<u8>>)
        ensures
            match r {
                Some(v) => map_of(self@).contains_key(name@) && v@ == map_of(self@)[name@],
                None => !map_of(self@).contains_key(name@),
            },
    {
        let n = self.entries.len();
        let mut i = n;
        while i > 0
            invariant
                i <= n,
                n == self@.len(),
                forall|j: int| i <= j < n ==> (#[trigger] self@[j]).0 != name@,
            decreases i,
        {
            i = i - 1;
            if bytes_eq(self.entries[i].name.as_slice(), name) {
                proof {
                    lemma_map_of_found(self@, i as int, name@);
                }
                return Some(&self.entries[i].value);
            }
        }
        proof {
            lemma_map_of_absent(self@, name@);
        }
        None
    }

    /// Whether the block's mapping contains a name.
    pub fn contains_key(&self, name: &[u8]) -> (r: bool)
        ensures
            r == map_of(self@).contains_key(name@),
    {
        self.get(name).is_some()
    }
}

} // verus!
