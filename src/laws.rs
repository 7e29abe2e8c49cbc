use vstd::prelude::*;

use crate::cache::{
    deterministic, encodes_all, joined, kept, pushed_all, self_framing, writes, Rewrite, VecCache,
};
use crate::error::Error;

verus! {

/// Under an unbounded limit nothing is ever dropped: pushing the records of
/// `rs` in turn leaves exactly `rs`.
pub proof fn lemma_unbounded_keeps_all<T>(rs: Seq<T>)
    requires
        rs.len() < usize::MAX,
    ensures
        pushed_all(rs, usize::MAX as nat) == rs,
    decreases rs.len(),
{
    if rs.len() > 0 {
        lemma_unbounded_keeps_all(rs.drop_last());
        assert(rs.drop_last().push(rs.last()) =~= rs);
        assert(kept(rs.drop_last(), rs.last(), usize::MAX as nat) == rs);
    }
}

/// However many records are pushed to a fresh cache, it never holds more
/// than its limit.
pub proof fn lemma_pushes_stay_within_limit<T>(rs: Seq<T>, limit: nat)
    ensures
        pushed_all(rs, limit).len() <= limit,
    decreases rs.len(),
{
    if rs.len() > 0 {
        lemma_pushes_stay_within_limit(rs.drop_last(), limit);
    }
}

/// Two encodings of the same records by a deterministic encoder join to the
/// same bytes.
proof fn lemma_encodings_agree<T, S: Fn(&T) -> Result<Vec<u8>, Error>>(
    s: S,
    rs: Seq<T>,
    p: Seq<Vec<u8>>,
    q: Seq<Vec<u8>>,
)
    requires
        deterministic(s),
        encodes_all(s, rs, p),
        encodes_all(s, rs, q),
    ensures
        joined(p) == joined(q),
{
    let f = |v: Vec<u8>| v@;
    assert forall|i: int| 0 <= i < p.len() implies p.map_values(f)[i] == q.map_values(f)[i] by {
        assert(s.ensures((&rs[i],), Ok::<Vec<u8>, Error>(p[i])));
        assert(s.ensures((&rs[i],), Ok::<Vec<u8>, Error>(q[i])));
    }
    assert(p.map_values(f) =~= q.map_values(f));
}

/// A file written by a successful flush of a cache that holds no more than
/// its limit is read back by `open`, under a self-framing codec, as the
/// same records in the same order, whatever limit it is opened with.
pub proof fn lemma_open_keeps_order<T, S, D>(
    c: VecCache<T, S, D>,
    rw: Rewrite,
    b: Vec<u8>,
    limit: Option<usize>,
    res: Result<VecCache<T, S, D>, Error>,
) where
    S: Fn(&T) -> Result<Vec<u8>, Error>,
    D: Fn(Vec<u8>) -> Result<Vec<T>, Error>,

    requires
        c.records().len() <= c.limit(),
        c.flushes_to(rw),
        rw.outcome is Ok,
        b@ == rw.bytes@,
        self_framing(c.serializer(), c.deserializer()),
        VecCache::opens(b, limit, c.serializer(), c.deserializer(), res),
    ensures
        res is Ok,
        res->Ok_0.records() == c.records(),
{
    let s = c.serializer();
    let d = c.deserializer();
    assert(c.window() == c.records());
    let pieces = choose|pieces: Seq<Vec<u8>>|
        encodes_all(s, c.window(), pieces) && joined(pieces) == rw.bytes@;
    match res {
        Ok(c2) => {
            let v = choose|v: Vec<T>| d.ensures((b,), Ok::<Vec<T>, Error>(v)) && c2.records() == v@;
            assert(encodes_all(s, c.records(), pieces) && d.ensures((b,), Ok::<Vec<T>, Error>(v)));
        },
        Err(e) => {
            assert(encodes_all(s, c.records(), pieces) && d.ensures((b,), Err::<Vec<T>, Error>(e)));
        },
    }
}

/// Records pushed to a fresh cache without a limit, flushed and read back
/// by `open` with the same self-framing codec, come back equal and in order.
pub proof fn lemma_round_trip<T, S, D>(
    rs: Seq<T>,
    c: VecCache<T, S, D>,
    rw: Rewrite,
    b: Vec<u8>,
    limit: Option<usize>,
    res: Result<VecCache<T, S, D>, Error>,
) where
    S: Fn(&T) -> Result<Vec<u8>, Error>,
    D: Fn(Vec<u8>) -> Result<Vec<T>, Error>,

    requires
        rs.len() < usize::MAX,
        c.limit() == usize::MAX,
        c.records() == pushed_all(rs, c.limit()),
        c.flushes_to(rw),
        rw.outcome is Ok,
        b@ == rw.bytes@,
        self_framing(c.serializer(), c.deserializer()),
        VecCache::opens(b, limit, c.serializer(), c.deserializer(), res),
    ensures
        res is Ok,
        res->Ok_0.records() == rs,
{
    lemma_unbounded_keeps_all(rs);
    lemma_open_keeps_order(c, rw, b, limit, res);
}

/// Under a deterministic encoder, two flushes with nothing pushed in
/// between write the same bytes.
pub proof fn lemma_flush_idempotent<T, S, D>(c: VecCache<T, S, D>, x: Rewrite, y: Rewrite) where
    S: Fn(&T) -> Result<Vec<u8>, Error>,
    D: Fn(Vec<u8>) -> Result<Vec<T>, Error>,

    requires
        deterministic(c.serializer()),
        c.flushes_to(x),
        c.flushes_to(y),
    ensures
        x.bytes@ == y.bytes@,
{
    let s = c.serializer();
    let w = c.window();
    let kx: int = match x.outcome {
        Ok(_) => w.len() as int,
        Err(e) => choose|k: int|
            0 <= k < w.len() && writes(s, w.take(k), x.bytes@) && s.ensures(
                (&w[k],),
                Err::<Vec<u8>, Error>(e),
            ),
    };
    let ky: int = match y.outcome {
        Ok(_) => w.len() as int,
        Err(e) => choose|k: int|
            0 <= k < w.len() && writes(s, w.take(k), y.bytes@) && s.ensures(
                (&w[k],),
                Err::<Vec<u8>, Error>(e),
            ),
    };
    assert(w.take(w.len() as int) =~= w);
    assert(writes(s, w.take(kx), x.bytes@));
    assert(writes(s, w.take(ky), y.bytes@));
    let px = choose|p: Seq<Vec<u8>>| encodes_all(s, w.take(kx), p) && joined(p) == x.bytes@;
    let py = choose|p: Seq<Vec<u8>>| encodes_all(s, w.take(ky), p) && joined(p) == y.bytes@;
    if kx < ky {
        let e = x.outcome->Err_0;
        assert(s.ensures((&w[kx],), Err::<Vec<u8>, Error>(e)));
        assert(s.ensures((&w.take(ky)[kx],), Ok::<Vec<u8>, Error>(py[kx])));
    } else if ky < kx {
        let e = y.outcome->Err_0;
        assert(s.ensures((&w[ky],), Err::<Vec<u8>, Error>(e)));
        assert(s.ensures((&w.take(kx)[ky],), Ok::<Vec<u8>, Error>(px[ky])));
    } else {
        lemma_encodings_agree(s, w.take(kx), px, py);
    }
}

} // verus!
