use vstd::prelude::*;

use crate::error::Error;

verus! {

/// The limit that an optional capacity stands for: none means unbounded.
pub open spec fn limit_of(limit: Option<usize>) -> nat {
    match limit {
        Some(l) => l as nat,
        None => usize::MAX as nat,
    }
}

/// The records kept after `r` is appended to `rs` under `limit`.
///
/// Below the limit the record is simply appended. At or above it the
/// sequence is cut back to `limit` from its newest end, so that once the
/// sequence is full, the record just appended is the one that goes.
pub open spec fn kept<T>(rs: Seq<T>, r: T, limit: nat) -> Seq<T> {
    let s = rs.push(r);
    if s.len() < limit {
        s
    } else {
        s.take(limit as int)
    }
}

/// The records that pushing each of `rs` in turn leaves in a fresh cache.
pub open spec fn pushed_all<T>(rs: Seq<T>, limit: nat) -> Seq<T>
    decreases rs.len(),
{
    if rs.len() == 0 {
        Seq::empty()
    } else {
        kept(pushed_all(rs.drop_last(), limit), rs.last(), limit)
    }
}

/// The bytes of encoded pieces, written back to back.
pub open spec fn joined(pieces: Seq<Vec<u8>>) -> Seq<u8> {
    pieces.map_values(|v: Vec<u8>| v@).flatten()
}

/// `pieces` are what `s` encodes `rs` to, one piece for each record.
pub open spec fn encodes_all<T, S: Fn(&T) -> Result<Vec<u8>, Error>>(
    s: S,
    rs: Seq<T>,
    pieces: Seq<Vec<u8>>,
) -> bool {
    &&& pieces.len() == rs.len()
    &&& forall|i: int|
        #![trigger pieces[i]]
        0 <= i < rs.len() ==> s.ensures((&rs[i],), Ok::<Vec<u8>, Error>(pieces[i]))
}

/// `out` is what `s` writes for `rs`: each record encoded in turn, the
/// pieces joined.
pub open spec fn writes<T, S: Fn(&T) -> Result<Vec<u8>, Error>>(
    s: S,
    rs: Seq<T>,
    out: Seq<u8>,
) -> bool {
    exists|pieces: Seq<Vec<u8>>| encodes_all(s, rs, pieces) && joined(pieces) == out
}

/// The encoder gives one answer for each record: it accepts or refuses a
/// record always, and always with the same bytes.
pub open spec fn deterministic<T, S: Fn(&T) -> Result<Vec<u8>, Error>>(s: S) -> bool {
    &&& forall|r: T, x: Vec<u8>, y: Vec<u8>|
        #![trigger s.ensures((&r,), Ok::<Vec<u8>, Error>(x)), s.ensures((&r,), Ok::<Vec<u8>, Error>(y))]
        s.ensures((&r,), Ok::<Vec<u8>, Error>(x)) && s.ensures((&r,), Ok::<Vec<u8>, Error>(y))
            ==> x@ == y@
    &&& forall|r: T, x: Vec<u8>, e: Error|
        #![trigger s.ensures((&r,), Ok::<Vec<u8>, Error>(x)), s.ensures((&r,), Err::<Vec<u8>, Error>(e))]
        !(s.ensures((&r,), Ok::<Vec<u8>, Error>(x)) && s.ensures((&r,), Err::<Vec<u8>, Error>(e)))
}

/// The decoder reads back, in order, any records that the encoder wrote
/// back to back, and never refuses such bytes.
pub open spec fn self_framing<
    T,
    S: Fn(&T) -> Result<Vec<u8>, Error>,
    D: Fn(Vec<u8>) -> Result<Vec<T>, Error>,
>(s: S, d: D) -> bool {
    forall|rs: Seq<T>, pieces: Seq<Vec<u8>>, b: Vec<u8>, r: Result<Vec<T>, Error>|
        #![trigger encodes_all(s, rs, pieces), d.ensures((b,), r)]
        encodes_all(s, rs, pieces) && b@ == joined(pieces) && d.ensures((b,), r) ==> r is Ok
            && r->Ok_0@ == rs
}

/// Joining one more piece appends its bytes.
proof fn lemma_joined_push(pieces: Seq<Vec<u8>>, v: Vec<u8>)
    ensures
        joined(pieces.push(v)) == joined(pieces) + v@,
{
    let f = |v: Vec<u8>| v@;
    assert(pieces.push(v).map_values(f) =~= pieces.map_values(f).push(v@));
    pieces.map_values(f).lemma_flatten_push(v@);
}

/// A full rewrite of the backing file: truncate it, make the truncation
/// durable, go back to its start and write `bytes`. The operation then ends
/// with `outcome`: the limit on success, or the encoder's first failure, in
/// which case `bytes` hold the records encoded before it.
#[derive(Debug)]
pub struct Rewrite {
    pub bytes: Vec<u8>,
    pub outcome: Result<usize, Error>,
}

/// What the backing file must undergo after a push.
#[derive(Debug)]
pub enum FileOp {
    /// Write the bytes at the end of the file.
    Append(Vec<u8>),
    /// Rewrite the whole file.
    Rewrite(Rewrite),
}

/// The most recent records of a file-backed buffer, with the capacity limit
/// and the codec that maps them to the file's bytes.
///
/// Index 0 is the oldest record kept. The cache never looks into a record;
/// only the codec does.
#[verifier::reject_recursive_types(T)]
pub struct VecCache<T, S, D> where
    S: Fn(&T) -> Result<Vec<u8>, Error>,
    D: Fn(Vec<u8>) -> Result<Vec<T>, Error>,
 {
    data: Vec<T>,
    limit: usize,
    serializer: S,
    deserializer: D,
}

impl<T, S, D> VecCache<T, S, D> where
    S: Fn(&T) -> Result<Vec<u8>, Error>,
    D: Fn(Vec<u8>) -> Result<Vec<T>, Error>,
 {
    /// The records kept, oldest first.
    pub closed spec fn records(&self) -> Seq<T> {
        self.data@
    }

    /// The capacity limit; `usize::MAX` when none was given.
    pub closed spec fn limit(&self) -> nat {
        self.limit as nat
    }

    pub closed spec fn serializer(&self) -> S {
        self.serializer
    }

    pub closed spec fn deserializer(&self) -> D {
        self.deserializer
    }

    /// The encoder accepts any record as an argument.
    pub open spec fn wf(&self) -> bool {
        forall|r: T| #[trigger] self.serializer().requires((&r,))
    }

    /// The records that a flush writes: the last `limit` of them, or all.
    pub open spec fn window(&self) -> Seq<T> {
        let n = self.records().len();
        if n > self.limit() {
            self.records().subrange(n - self.limit(), n as int)
        } else {
            self.records()
        }
    }

    /// `rw` is what a flush of this cache hands back.
    pub open spec fn flushes_to(&self, rw: Rewrite) -> bool {
        match rw.outcome {
            Ok(l) => l == self.limit() && writes(self.serializer(), self.window(), rw.bytes@),
            Err(e) => exists|k: int|
                0 <= k < self.window().len() && writes(
                    self.serializer(),
                    self.window().take(k),
                    rw.bytes@,
                ) && self.serializer().ensures((&self.window()[k],), Err::<Vec<u8>, Error>(e)),
        }
    }

    /// `res` is what opening a file that holds `b` gives.
    pub open spec fn opens(
        b: Vec<u8>,
        limit: Option<usize>,
        serializer: S,
        deserializer: D,
        res: Result<Self, Error>,
    ) -> bool {
        match res {
            Ok(c) => {
                &&& c.limit() == limit_of(limit)
                &&& c.serializer() == serializer
                &&& c.deserializer() == deserializer
                &&& exists|v: Vec<T>|
                    deserializer.ensures((b,), Ok::<Vec<T>, Error>(v)) && c.records() == v@
            },
            Err(e) => deserializer.ensures((b,), Err::<Vec<T>, Error>(e)),
        }
    }

    /// A cache with no records, for a file that was just created or emptied.
    pub fn create(limit: Option<usize>, serializer: S, deserializer: D) -> (c: Self)
        requires
            forall|r: T| #[trigger] serializer.requires((&r,)),
        ensures
            c.wf(),
            c.records() == Seq::<T>::empty(),
            c.limit() == limit_of(limit),
            c.serializer() == serializer,
            c.deserializer() == deserializer,
    {
        let limit = match limit {
            Some(l) => l,
            None => usize::MAX,
        };
        VecCache { data: Vec::new(), limit, serializer, deserializer }
    }

    /// Opens a cache over the bytes `b` read from an existing file: they
    /// are decoded once, as a whole, and the records adopted as they come.
    ///
    /// The limit is not applied here: a file that holds more records than
    /// the limit keeps them all until the next push, `push_buf` or
    /// `sync_limit`. A flush writes only the last `limit` of them.
    pub fn open(b: Vec<u8>, limit: Option<usize>, serializer: S, deserializer: D) -> (res: Result<
        Self,
        Error,
    >)
        requires
            forall|r: T| #[trigger] serializer.requires((&r,)),
            deserializer.requires((b,)),
        ensures
            Self::opens(b, limit, serializer, deserializer, res),
            res matches Ok(c) ==> c.wf(),
    {
        let ghost gb = b;
        let decoded = deserializer(b);
        let lim = match limit {
            Some(l) => l,
            None => usize::MAX,
        };
        match decoded {
            Ok(data) => {
                let c = VecCache { data, limit: lim, serializer, deserializer };
                assert(deserializer.ensures((gb,), Ok::<Vec<T>, Error>(c.data)));
                assert(c.limit() == limit_of(limit));
                assert(c.records() == c.data@);
                Ok(c)
            },
            Err(e) => Err(e),
        }
    }

    /// Encodes the window, oldest first, into the bytes of a full rewrite.
    /// It stops at the first record that the encoder refuses and reports
    /// that failure, with the bytes encoded before it.
    pub fn flush(&self) -> (rw: Rewrite)
        requires
            self.wf(),
        ensures
            self.flushes_to(rw),
    {
        let n = self.data.len();
        let start: usize = if n > self.limit {
            n - self.limit
        } else {
            0
        };
        assert(self.window() =~= self.data@.subrange(start as int, n as int));
        let mut bytes: Vec<u8> = Vec::new();
        let ghost mut pieces: Seq<Vec<u8>> = Seq::empty();
        let mut i: usize = start;
        assert(joined(pieces) =~= Seq::<u8>::empty());
        while i < n
            invariant
                start <= i <= n,
                n == self.data.len(),
                self.wf(),
                self.window() == self.data@.subrange(start as int, n as int),
                encodes_all(self.serializer, self.data@.subrange(start as int, i as int), pieces),
                joined(pieces) == bytes@,
            decreases n - i,
        {
            assert(self.serializer().requires((&self.data@[i as int],)));
            let res = (self.serializer)(&self.data[i]);
            match res {
                Ok(b) => {
                    let mut b = b;
                    proof {
                        lemma_joined_push(pieces, b);
                        pieces = pieces.push(b);
                        assert(self.data@.subrange(start as int, i + 1) =~= self.data@.subrange(
                            start as int,
                            i as int,
                        ).push(self.data@[i as int]));
                    }
                    bytes.append(&mut b);
                },
                Err(e) => {
                    proof {
                        let k = i - start;
                        assert(self.window().take(k) =~= self.data@.subrange(
                            start as int,
                            i as int,
                        ));
                        assert(writes(self.serializer(), self.window().take(k), bytes@));
                    }
                    return Rewrite { bytes, outcome: Err(e) };
                },
            }
            i = i + 1;
        }
        proof {
            assert(writes(self.serializer(), self.window(), bytes@));
        }
        Rewrite { bytes, outcome: Ok(self.limit) }
    }

    /// Encodes `data` and appends it. Below the limit the new bytes are to be
    /// appended to the file; at or above it the records are cut back to the
    /// limit from the newest end and the file is to be rewritten.
    ///
    /// When the encoder refuses `data`, its error comes back and nothing
    /// changes, in memory or on file.
    pub fn push(&mut self, data: T) -> (res: Result<FileOp, Error>)
        requires
            old(self).wf(),
        ensures
            final(self).wf(),
            final(self).limit() == old(self).limit(),
            final(self).serializer() == old(self).serializer(),
            final(self).deserializer() == old(self).deserializer(),
            res is Err ==> *final(self) == *old(self),
            res matches Err(e) ==> old(self).serializer().ensures(
                (&data,),
                Err::<Vec<u8>, Error>(e),
            ),
            res is Ok ==> final(self).records() == kept(old(self).records(), data, old(self).limit()),
            res is Ok ==> final(self).records().len() <= final(self).limit(),
            old(self).records().len() <= old(self).limit() ==> final(self).records().len()
                <= final(self).limit(),
            res is Ok ==> exists|b: Vec<u8>|
                old(self).serializer().ensures((&data,), Ok::<Vec<u8>, Error>(b)),
            res matches Ok(FileOp::Append(b)) ==> old(self).records().len() + 1 < old(self).limit()
                && old(self).serializer().ensures((&data,), Ok::<Vec<u8>, Error>(b)),
            res matches Ok(FileOp::Rewrite(rw)) ==> old(self).records().len() + 1 >= old(
                self,
            ).limit() && final(self).flushes_to(rw),
    {
        assert(self.serializer().requires((&data,)));
        let to_write = (self.serializer)(&data);
        match to_write {
            Err(e) => Err(e),
            Ok(b) => {
                self.data.push(data);
                assert(self.serializer() == old(self).serializer());
                assert(self.wf());
                if self.data.len() < self.limit {
                    return Ok(FileOp::Append(b));
                }
                self.sync_limit();
                Ok(FileOp::Rewrite(self.flush()))
            },
        }
    }

    /// Number of records held.
    pub fn len(&self) -> (n: usize)
        ensures
            n == self.records().len(),
    {
        self.data.len()
    }

    /// The records held, oldest first.
    pub fn iter(&self) -> (s: &[T])
        ensures
            s@ == self.records(),
    {
        self.data.as_slice()
    }

    /// Drops records from the newest end until at most `limit` are left.
    pub fn sync_limit(&mut self)
        ensures
            final(self).limit() == old(self).limit(),
            final(self).serializer() == old(self).serializer(),
            final(self).deserializer() == old(self).deserializer(),
            old(self).records().len() > old(self).limit() ==> final(self).records()
                == old(self).records().take(old(self).limit() as int),
            old(self).records().len() <= old(self).limit() ==> final(self).records() == old(
                self,
            ).records(),
    {
        self.data.truncate(self.limit);
    }

    /// Appends a record in memory only, leaving the file alone, and applies
    /// the limit as `push` does.
    pub fn push_buf(&mut self, data: T)
        ensures
            final(self).records() == kept(old(self).records(), data, old(self).limit()),
            final(self).records().len() <= final(self).limit(),
            final(self).limit() == old(self).limit(),
            final(self).serializer() == old(self).serializer(),
            final(self).deserializer() == old(self).deserializer(),
    {
        self.data.push(data);
        self.sync_limit();
    }
}

} // verus!
