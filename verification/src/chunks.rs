//! Chunk partitioning and the replace-then-append write plan.
//!
//! A write to the remote service carries at most `CHUNK_MAX` identifiers per
//! call.  An ordered selection is therefore split into consecutive chunks;
//! the first chunk is written with a destructive replace call and every later
//! chunk with an append call, in order.

use vstd::prelude::*;
use crate::errors::EngineError;
use crate::model::ids_view;
use crate::CHUNK_MAX;

verus! {

/// How many chunks of at most `CHUNK_MAX` elements a sequence of length `n` splits into.
pub open spec fn num_chunks(n: int) -> int {
    (n + (CHUNK_MAX - 1)) / (CHUNK_MAX as int)
}

/// The end of the chunk that starts at `start`, for a sequence of length `n`.
pub open spec fn chunk_end(start: int, n: int) -> int {
    if n - start > CHUNK_MAX { start + CHUNK_MAX } else { n }
}

/// What chunk `i` of a sequence `s` must hold: the elements from
/// `CHUNK_MAX * i` up to the chunk end.
pub open spec fn is_chunk_of<A>(c: Seq<A>, s: Seq<A>, i: int) -> bool {
    c == s.subrange(CHUNK_MAX * i, chunk_end(CHUNK_MAX * i, s.len() as int))
}

/// Splits the identifiers into consecutive chunks of at most `CHUNK_MAX`
/// elements, preserving order.  An empty input yields no chunks.
pub fn partition_chunks(ids: &Vec<String>) -> (chunks: Vec<Vec<String>>)
    ensures
        chunks@.len() == num_chunks(ids@.len() as int),
        forall|i: int|
            0 <= i < chunks@.len() ==> is_chunk_of(
                ids_view(#[trigger] chunks@[i]@),
                ids_view(ids@),
                i,
            ),
        forall|i: int| 0 <= i < chunks@.len() ==> 0 < #[trigger] chunks@[i]@.len() <= CHUNK_MAX,
        chunks@.map_values(|c: Vec<String>| ids_view(c@)).flatten() == ids_view(ids@),
{
    let n = ids.len();
    let mut chunks: Vec<Vec<String>> = Vec::new();
    let mut start: usize = 0;
    while start < n
        invariant
            n == ids@.len(),
            start <= n,
            start == CHUNK_MAX * chunks@.len() || (start == n && chunks@.len() == num_chunks(
                n as int,
            )),
            forall|i: int|
                0 <= i < chunks@.len() ==> is_chunk_of(
                    ids_view(#[trigger] chunks@[i]@),
                    ids_view(ids@),
                    i,
                ),
            forall|i: int| 0 <= i < chunks@.len() ==> 0 < #[trigger] chunks@[i]@.len() <= CHUNK_MAX,
        decreases n - start,
    {
        let end = if n - start > CHUNK_MAX {
            start + CHUNK_MAX
        } else {
            n
        };
        let mut chunk: Vec<String> = Vec::new();
        let mut j = start;
        while j < end
            invariant
                n == ids@.len(),
                start <= j <= end <= n,
                chunk@.len() == j - start,
                forall|k: int| 0 <= k < chunk@.len() ==> #[trigger] chunk@[k]@ == ids@[start + k]@,
            decreases end - j,
        {
            chunk.push(ids[j].clone());
            j = j + 1;
        }
        proof {
            let ghost c = chunks@.len() as int;
            assert(start == CHUNK_MAX * c);
            assert(ids_view(chunk@) =~= ids_view(ids@).subrange(
                start as int,
                chunk_end(start as int, n as int),
            ));
            if end == n {
                assert(chunks@.len() + 1 == num_chunks(n as int)) by {
                    assert(CHUNK_MAX * c < n <= CHUNK_MAX * c + CHUNK_MAX);
                };
            }
        }
        chunks.push(chunk);
        start = end;
    }
    proof {
        if n == 0 {
            assert(num_chunks(0) == 0);
        }
        let cv = chunks@.map_values(|c: Vec<String>| ids_view(c@));
        lemma_chunk_cover_flatten(cv, ids_view(ids@), 0);
        assert(ids_view(ids@).subrange(0, ids@.len() as int) =~= ids_view(ids@));
    }
    chunks
}

/// One call of the write protocol: a destructive replace of the whole remote
/// playlist, or an append at its end.
pub enum WriteCall {
    Replace { ids: Vec<String> },
    Append { ids: Vec<String> },
}

impl WriteCall {
    /// The identifiers this call carries, as character sequences.
    pub open spec fn spec_ids(&self) -> Seq<Seq<char>> {
        match self {
            WriteCall::Replace { ids } => ids_view(ids@),
            WriteCall::Append { ids } => ids_view(ids@),
        }
    }

    pub open spec fn spec_is_replace(&self) -> bool {
        self matches WriteCall::Replace { .. }
    }

    /// The identifiers this call carries.
    pub fn ids(&self) -> (r: &Vec<String>)
        ensures
            ids_view(r@) == self.spec_ids(),
    {
        match self {
            WriteCall::Replace { ids } => ids,
            WriteCall::Append { ids } => ids,
        }
    }

    pub fn is_replace(&self) -> (r: bool)
        ensures
            r == self.spec_is_replace(),
    {
        match self {
            WriteCall::Replace { .. } => true,
            WriteCall::Append { .. } => false,
        }
    }
}

/// The identifiers of each call of a plan, in plan order.
pub open spec fn plan_ids(plan: Seq<WriteCall>) -> Seq<Seq<Seq<char>>> {
    plan.map_values(|c: WriteCall| c.spec_ids())
}

/// How many calls the write plan for `n` identifiers holds: one replace even
/// when the selection is empty, else one call per chunk.
pub open spec fn plan_len(n: int) -> int {
    if n == 0 {
        1
    } else {
        num_chunks(n)
    }
}

/// Builds the write plan for an ordered selection: the selection is split
/// into consecutive chunks of at most `CHUNK_MAX` identifiers; the first
/// chunk becomes a replace call (so the remote playlist is emptied of
/// whatever it held before) and each later chunk an append call, in order.
/// Concatenating the calls' identifiers reproduces the selection exactly.
pub fn plan_writes(selection: &Vec<String>) -> (plan: Vec<WriteCall>)
    ensures
        plan@.len() == plan_len(selection@.len() as int),
        plan@[0].spec_is_replace(),
        forall|i: int| 0 < i < plan@.len() ==> !(#[trigger] plan@[i]).spec_is_replace(),
        forall|i: int|
            0 <= i < plan@.len() ==> is_chunk_of(
                (#[trigger] plan@[i]).spec_ids(),
                ids_view(selection@),
                i,
            ),
        forall|i: int| 0 <= i < plan@.len() ==> (#[trigger] plan@[i]).spec_ids().len() <= CHUNK_MAX,
        plan_ids(plan@).flatten() == ids_view(selection@),
{
    let mut chunks = partition_chunks(selection);
    let ghost chunks0 = chunks@;
    let mut plan: Vec<WriteCall> = Vec::new();
    if chunks.len() == 0 {
        plan.push(WriteCall::Replace { ids: Vec::new() });
        proof {
            assert(selection@.len() == 0) by {
                if selection@.len() > 0 {
                    assert(num_chunks(selection@.len() as int) > 0);
                }
            };
            assert(plan@[0].spec_ids() =~= ids_view(selection@).subrange(0, 0));
            assert(ids_view(selection@) =~= Seq::<Seq<char>>::empty());
            assert(plan_ids(plan@) =~= seq![plan@[0].spec_ids()]);
            plan_ids(plan@).lemma_flatten_one_element();
            assert(plan_ids(plan@).flatten() =~= ids_view(selection@));
        }
        return plan;
    }
    let total = chunks.len();
    let mut taken: usize = 0;
    while chunks.len() > 0
        invariant
            taken + chunks@.len() == total,
            total == chunks0.len(),
            forall|i: int| 0 <= i < chunks@.len() ==> chunks@[i] == chunks0[taken + i],
            plan@.len() == taken,
            forall|i: int|
                0 <= i < taken ==> ((#[trigger] plan@[i]).spec_is_replace() <==> i == 0),
            forall|i: int|
                0 <= i < taken ==> (#[trigger] plan@[i]).spec_ids() == ids_view(chunks0[i]@),
        decreases chunks@.len(),
    {
        let c = chunks.remove(0);
        if taken == 0 {
            plan.push(WriteCall::Replace { ids: c });
        } else {
            plan.push(WriteCall::Append { ids: c });
        }
        taken = taken + 1;
    }
    proof {
        let ghost n = selection@.len() as int;
        assert(num_chunks(n) > 0);
        assert(plan@.len() == plan_len(n));
        assert forall|i: int| 0 <= i < plan@.len() implies is_chunk_of(
            (#[trigger] plan@[i]).spec_ids(),
            ids_view(selection@),
            i,
        ) by {
            assert(plan@[i].spec_ids() == ids_view(chunks0[i]@));
        };
        assert forall|i: int|
            0 <= i < plan@.len() implies (#[trigger] plan@[i]).spec_ids().len() <= CHUNK_MAX by {
            assert(is_chunk_of(plan@[i].spec_ids(), ids_view(selection@), i));
        };
        lemma_chunk_cover_flatten(plan_ids(plan@), ids_view(selection@), 0);
        assert(ids_view(selection@).subrange(0, n) =~= ids_view(selection@));
    }
    plan
}

/// The Bulk Writer's decision after one call of the plan: carry on when the
/// call succeeded, else stop at once — no later chunk may be issued — and
/// report the index of the chunk that failed; the calls before it were
/// already written.
pub fn write_step(chunk_index: usize, call_succeeded: bool) -> (r: Result<(), EngineError>)
    ensures
        r == if call_succeeded {
            Ok::<(), EngineError>(())
        } else {
            Err::<(), EngineError>((EngineError::Write { chunk_index }))
        },
{
    if call_succeeded {
        Ok(())
    } else {
        Err(EngineError::Write { chunk_index })
    }
}

/// Consecutive chunks that cover a sequence from `off` to its end
/// concatenate back to exactly that part of the sequence.
proof fn lemma_chunk_cover_flatten<A>(c: Seq<Seq<A>>, s: Seq<A>, off: int)
    requires
        0 <= off <= s.len(),
        c.len() == num_chunks(s.len() - off),
        forall|i: int|
            0 <= i < c.len() ==> #[trigger] c[i] == s.subrange(
                off + CHUNK_MAX * i,
                chunk_end(off + CHUNK_MAX * i, s.len() as int),
            ),
    ensures
        c.flatten() == s.subrange(off, s.len() as int),
    decreases c.len(),
{
    if c.len() == 0 {
        assert(s.len() - off == 0);
        assert(c.flatten() =~= s.subrange(off, s.len() as int));
    } else {
        let n = s.len() as int;
        let e = chunk_end(off, n);
        assert(c[0] == s.subrange(off, e));
        let rest = c.drop_first();
        assert(rest.len() == num_chunks(n - e)) by {
            if n - off > CHUNK_MAX {
                assert(e == off + CHUNK_MAX);
                assert(num_chunks(n - off) == 1 + num_chunks(n - e));
            } else {
                assert(e == n);
                assert(num_chunks(n - off) == 1);
                assert(num_chunks(0) == 0);
            }
        };
        assert forall|i: int| 0 <= i < rest.len() implies #[trigger] rest[i] == s.subrange(
            e + CHUNK_MAX * i,
            chunk_end(e + CHUNK_MAX * i, n),
        ) by {
            assert(rest[i] == c[i + 1]);
            assert(off + CHUNK_MAX * (i + 1) == e + CHUNK_MAX * i);
        };
        lemma_chunk_cover_flatten(rest, s, e);
        assert(c.flatten() == c.first().add(rest.flatten()));
        assert(c.flatten() =~= s.subrange(off, n));
    }
}

} // verus!
