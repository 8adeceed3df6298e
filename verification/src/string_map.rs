//! The CQL `string map` wire primitive: a `short` pair count followed by
//! that many (`string`, `string`) pairs. Pairs are kept in wire order;
//! when a key occurs twice, the last occurrence wins on lookup.

use vstd::prelude::*;
use vstd::utf8::encode_utf8;

use crate::wire::lemma_read_string_of_encode;
use crate::wire::read_string;
use crate::wire::read_unsigned_short;
use crate::wire::spec_be16;
use crate::wire::spec_read_string;
use crate::wire::spec_string_encode;
use crate::wire::spec_u16_of;
use crate::wire::write_string;
use crate::wire::write_unsigned_short;

verus! {

/// An ordered list of string pairs, as they appear on the wire.
#[derive(Debug, Clone)]
pub struct StringMap {
    pub entries: Vec<(String, String)>,
}

impl StringMap {
    /// The pairs as sequences of characters, in wire order.
    pub open spec fn pairs(&self) -> Seq<(Seq<char>, Seq<char>)> {
        self.entries@.map_values(|p: (String, String)| (p.0@, p.1@))
    }

    /// Every string fits in a `string`'s 16-bit byte-length field, and the
    /// pair count fits in a `short`.
    pub open spec fn wf(&self) -> bool {
        &&& self.pairs().len() <= u16::MAX
        &&& forall|i: int|
            0 <= i < self.pairs().len() ==> encode_utf8(#[trigger] self.pairs()[i].0).len()
                <= u16::MAX && encode_utf8(self.pairs()[i].1).len() <= u16::MAX
    }

    /// An empty map.
    pub fn new() -> (r: StringMap)
        ensures
            r.pairs() == Seq::<(Seq<char>, Seq<char>)>::empty(),
    {
        let r = StringMap { entries: Vec::new() };
        assert(r.pairs() =~= Seq::<(Seq<char>, Seq<char>)>::empty());
        r
    }

    /// Append a pair at the end, so that on lookup it wins over earlier
    /// pairs with the same key.
    pub fn insert(&mut self, key: String, value: String)
        ensures
            final(self).pairs() == old(self).pairs().push((key@, value@)),
    {
        let ghost before = self.pairs();
        self.entries.push((key, value));
        assert(self.pairs() =~= before.push((key@, value@)));
    }

    /// Look a key up; the last pair with that key wins.
    pub fn get(&self, key: &String) -> (r: Option<&String>)
        ensures
            (r matches Some(v) ==> exists|i: int|
                0 <= i < self.pairs().len() && #[trigger] self.pairs()[i] == (key@, v@)
                    && forall|j: int|
                    i < j < self.pairs().len() ==> (#[trigger] self.pairs()[j]).0 != key@),
            r is None ==> forall|i: int|
                0 <= i < self.pairs().len() ==> (#[trigger] self.pairs()[i]).0 != key@,
    {
        let mut idx: usize = self.entries.len();
        while idx > 0
            invariant
                idx <= self.entries@.len(),
                forall|j: int|
                    idx <= j < self.pairs().len() ==> (#[trigger] self.pairs()[j]).0 != key@,
            decreases idx,
        {
            idx = idx - 1;
            assert(self.pairs()[idx as int] == (self.entries@[idx as int].0@,
            self.entries@[idx as int].1@));
            if self.entries[idx].0.eq(key) {
                let ghost w = idx as int;
                assert(self.pairs()[w] == (key@, self.entries@[w].1@));
                return Some(&self.entries[idx].1);
            }
        }
        None
    }
}

/// Wire form of the pairs of a `string map`, without the leading count.
pub open spec fn spec_pairs_encode(ps: Seq<(Seq<char>, Seq<char>)>) -> Seq<u8>
    decreases ps.len(),
{
    if ps.len() == 0 {
        Seq::<u8>::empty()
    } else {
        spec_string_encode(ps[0].0) + spec_string_encode(ps[0].1) + spec_pairs_encode(
            ps.drop_first(),
        )
    }
}

/// Wire form of a `string map`: `short` pair count, then the pairs.
pub open spec fn spec_string_map_encode(ps: Seq<(Seq<char>, Seq<char>)>) -> Seq<u8> {
    spec_be16(ps.len() as u16) + spec_pairs_encode(ps)
}

/// Appending a pair appends its wire form.
proof fn lemma_pairs_encode_push(ps: Seq<(Seq<char>, Seq<char>)>, p: (Seq<char>, Seq<char>))
    ensures
        spec_pairs_encode(ps.push(p)) == spec_pairs_encode(ps) + spec_string_encode(p.0)
            + spec_string_encode(p.1),
    decreases ps.len(),
{
    if ps.len() == 0 {
        assert(ps.push(p).drop_first() =~= ps);
        assert(spec_pairs_encode(ps.push(p)) =~= spec_pairs_encode(ps) + spec_string_encode(p.0)
            + spec_string_encode(p.1));
    } else {
        assert(ps.push(p).drop_first() =~= ps.drop_first().push(p));
        lemma_pairs_encode_push(ps.drop_first(), p);
        assert(spec_pairs_encode(ps.push(p)) =~= spec_pairs_encode(ps) + spec_string_encode(p.0)
            + spec_string_encode(p.1));
    }
}

/// Append a `string map`.
pub fn write_string_map(buf: &mut Vec<u8>, m: &StringMap)
    requires
        m.wf(),
    ensures
        final(buf)@ == old(buf)@ + spec_string_map_encode(m.pairs()),
{
    write_unsigned_short(buf, m.entries.len() as u16);
    let mut i: usize = 0;
    while i < m.entries.len()
        invariant
            m.wf(),
            i <= m.entries@.len(),
            buf@ == old(buf)@ + spec_be16(m.pairs().len() as u16) + spec_pairs_encode(
                m.pairs().take(i as int),
            ),
        decreases m.entries@.len() - i,
    {
        assert(m.pairs().len() == m.entries@.len());
        assert(m.pairs()[i as int] == (m.entries@[i as int].0@, m.entries@[i as int].1@));
        assert(encode_utf8(m.pairs()[i as int].0).len() <= u16::MAX && encode_utf8(
            m.pairs()[i as int].1,
        ).len() <= u16::MAX);
        write_string(buf, m.entries[i].0.as_str());
        write_string(buf, m.entries[i].1.as_str());
        proof {
            lemma_pairs_encode_push(m.pairs().take(i as int), m.pairs()[i as int]);
            assert(m.pairs().take(i + 1) =~= m.pairs().take(i as int).push(m.pairs()[i as int]));
            assert(buf@ =~= old(buf)@ + spec_be16(m.pairs().len() as u16) + spec_pairs_encode(
                m.pairs().take(i + 1),
            ));
        }
        i = i + 1;
    }
    assert(m.pairs().take(m.pairs().len() as int) =~= m.pairs());
}

/// Result of reading `n` pairs starting at `pos`: the pairs and the final
/// cursor, or `None` when the buffer is too short.
pub open spec fn spec_read_pairs(b: Seq<u8>, pos: int, n: int) -> Option<
    (Seq<(Seq<char>, Seq<char>)>, int),
>
    decreases n,
{
    if n <= 0 {
        Some((Seq::<(Seq<char>, Seq<char>)>::empty(), pos))
    } else {
        match spec_read_string(b, pos) {
            None => None,
            Some((k, p1)) => match spec_read_string(b, p1) {
                None => None,
                Some((v, p2)) => match spec_read_pairs(b, p2, n - 1) {
                    None => None,
                    Some((rest, p3)) => Some((seq![(k, v)] + rest, p3)),
                },
            },
        }
    }
}

/// Result of reading a whole `string map` starting at `pos`.
pub open spec fn spec_read_string_map(b: Seq<u8>, pos: int) -> Option<
    (Seq<(Seq<char>, Seq<char>)>, int),
> {
    if pos + 2 <= b.len() {
        spec_read_pairs(b, pos + 2, spec_u16_of(b[pos], b[pos + 1]) as int)
    } else {
        None
    }
}

/// Read a `string map`.
pub fn read_string_map(buf: &Vec<u8>, pos: usize) -> (r: Option<(StringMap, usize)>)
    requires
        pos <= buf@.len(),
    ensures
        r is Some <==> spec_read_string_map(buf@, pos as int) is Some,
        (r matches Some((m, p)) ==> spec_read_string_map(buf@, pos as int) == Some(
            (m.pairs(), p as int),
        )),
{
    match read_unsigned_short(buf, pos) {
        None => {
            None
        },
        Some((n, p0)) => {
            let mut m = StringMap { entries: Vec::new() };
            let mut p: usize = p0;
            let mut remaining: u16 = n;
            assert(m.pairs() =~= Seq::<(Seq<char>, Seq<char>)>::empty());
            proof {
                let rp = spec_read_pairs(buf@, p0 as int, n as int);
                if rp is Some {
                    assert(m.pairs() + rp->Some_0.0 =~= rp->Some_0.0);
                }
            }
            loop
                invariant
                    pos + 2 <= buf@.len(),
                    p0 == pos + 2,
                    n == spec_u16_of(buf@[pos as int], buf@[pos + 1]),
                    p <= buf@.len(),
                    spec_read_pairs(buf@, p0 as int, n as int) is Some <==> spec_read_pairs(
                        buf@,
                        p as int,
                        remaining as int,
                    ) is Some,
                    (spec_read_pairs(buf@, p as int, remaining as int) matches Some((rest, q))
                        ==> spec_read_pairs(buf@, p0 as int, n as int) == Some(
                        (m.pairs() + rest, q),
                    )),
                decreases remaining,
            {
                if remaining == 0 {
                    assert(m.pairs() + Seq::<(Seq<char>, Seq<char>)>::empty() =~= m.pairs());
                    return Some((m, p));
                }
                let ghost p_old = p as int;
                let ghost rem_old = remaining as int;
                let k = match read_string(buf, p) {
                    None => {
                        assert(spec_read_pairs(buf@, p_old, rem_old) is None);
                        return None;
                    },
                    Some((k, p1)) => {
                        p = p1;
                        k
                    },
                };
                let v = match read_string(buf, p) {
                    None => {
                        assert(spec_read_pairs(buf@, p_old, rem_old) is None);
                        return None;
                    },
                    Some((v, p2)) => {
                        p = p2;
                        v
                    },
                };
                let ghost pairs_before = m.pairs();
                m.entries.push((k, v));
                proof {
                    assert(m.pairs() =~= pairs_before.push((k@, v@)));
                    let rp = spec_read_pairs(buf@, p as int, rem_old - 1);
                    if rp is Some {
                        let rest = rp->Some_0.0;
                        assert(spec_read_pairs(buf@, p_old, rem_old) == Some(
                            (seq![(k@, v@)] + rest, rp->Some_0.1),
                        ));
                        assert(pairs_before + (seq![(k@, v@)] + rest) =~= m.pairs() + rest);
                    }
                }
                remaining = remaining - 1;
            }
        },
    }
}

/// Reading back an encoded pair list yields the pairs, as long as every
/// string fits its length field.
#[verifier::rlimit(50)]
proof fn lemma_read_pairs_of_encode(
    ps: Seq<(Seq<char>, Seq<char>)>,
    b: Seq<u8>,
    pos: int,
    tail: Seq<u8>,
)
    requires
        0 <= pos <= b.len(),
        forall|i: int|
            0 <= i < ps.len() ==> encode_utf8(#[trigger] ps[i].0).len() <= u16::MAX && encode_utf8(
                ps[i].1,
            ).len() <= u16::MAX,
        b == b.take(pos) + spec_pairs_encode(ps) + tail,
    ensures
        spec_read_pairs(b, pos, ps.len() as int) == Some(
            (ps, pos + spec_pairs_encode(ps).len()),
        ),
    decreases ps.len(),
{
    if ps.len() == 0 {
        assert(spec_read_pairs(b, pos, 0) == Some((Seq::<(Seq<char>, Seq<char>)>::empty(), pos)));
        assert(ps =~= Seq::<(Seq<char>, Seq<char>)>::empty());
    } else {
        let k = ps[0].0;
        let v = ps[0].1;
        let ke = spec_string_encode(k);
        let ve = spec_string_encode(v);
        let rest = spec_pairs_encode(ps.drop_first());
        assert(spec_pairs_encode(ps) == ke + ve + rest);
        assert(b.len() == pos + ke.len() + ve.len() + rest.len() + tail.len());
        assert(b =~= b.take(pos) + ke + (ve + rest + tail));
        lemma_read_string_of_encode(k, b, pos, ve + rest + tail);
        let p1 = pos + ke.len();
        assert(b =~= b.take(p1) + ve + (rest + tail));
        lemma_read_string_of_encode(v, b, p1, rest + tail);
        let p2 = p1 + ve.len();
        assert(b =~= b.take(p2) + rest + tail);
        lemma_read_pairs_of_encode(ps.drop_first(), b, p2, tail);
        assert(seq![(k, v)] + ps.drop_first() =~= ps);
    }
}

/// Law: a `string map` read back from its wire form yields the same pairs
/// in the same order, and consumes exactly its own bytes.
pub proof fn lemma_string_map_round_trip(m: StringMap, tail: Seq<u8>)
    requires
        m.wf(),
    ensures
        spec_read_string_map(spec_string_map_encode(m.pairs()) + tail, 0) == Some(
            (m.pairs(), spec_string_map_encode(m.pairs()).len() as int),
        ),
{
    broadcast use crate::wire::lemma_be16_of;

    let ps = m.pairs();
    let b = spec_string_map_encode(ps) + tail;
    assert(b[0] == spec_be16(ps.len() as u16)[0] && b[1] == spec_be16(ps.len() as u16)[1]);
    assert(spec_u16_of(b[0], b[1]) == ps.len() as u16);
    assert(b =~= b.take(2) + spec_pairs_encode(ps) + tail);
    lemma_read_pairs_of_encode(ps, b, 2, tail);
}

} // verus!
