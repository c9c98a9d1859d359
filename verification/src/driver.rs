//! The batched decode driver: walks a token sequence through an inference
//! engine in contiguous, capacity-bounded chunks, and collects one metrics
//! record per position.
//!
//! The engine itself lives outside this crate; the driver hands out the
//! next chunk to decode (each token tagged with its absolute position) and
//! takes back the candidate sets the engine produced for the chunk's
//! positions. The records it accumulates are a pure function of the token
//! sequence and the candidate sets alone — never of the batch capacity —
//! which is what makes batching transparent.

use vstd::prelude::*;
use crate::metrics::{
    Candidate, calculate_token_metrics, spec_probability_bits, spec_rank, spec_top_predictions,
};
use crate::result::{display_of, AnalysisResult, AnalyzedToken};

verus! {

/// The metrics recorded for one position: how the model's prediction there
/// compares with the token that actually followed.
#[derive(Debug, Clone)]
pub struct PositionRecord {
    pub rank: usize,
    pub probability_bits: u32,
    pub top: Vec<(i32, u32)>,
}

/// A record reduced to its mathematical content.
pub open spec fn record_view(r: PositionRecord) -> (int, u32, Seq<(i32, u32)>) {
    (r.rank as int, r.probability_bits, r.top@)
}

/// What the record for position `pos` must hold, given the candidate sets
/// the engine returned there: the metrics of the actual next token, or the
/// no-information record `(1, +0.0, [])` for the final position, which has
/// no next token to grade.
pub open spec fn spec_record(tokens: Seq<i32>, cands: Seq<Candidate>, pos: int) -> (
    int,
    u32,
    Seq<(i32, u32)>,
) {
    if pos + 1 < tokens.len() {
        (
            spec_rank(cands, Option::Some(tokens[pos + 1])),
            spec_probability_bits(cands, Option::Some(tokens[pos + 1])),
            spec_top_predictions(cands),
        )
    } else {
        (1int, 0u32, Seq::<(i32, u32)>::empty())
    }
}

/// The context capacity requested before decoding: room for every token
/// plus a fixed safety margin of 512, and never below the minimum
/// supported context of 4096.
pub fn context_capacity(total_tokens: usize) -> (n: u32)
    requires
        total_tokens + 512 <= u32::MAX,
    ensures
        n as int == if total_tokens + 512 >= 4096 {
            total_tokens + 512
        } else {
            4096int
        },
        n >= 4096,
        n as int >= total_tokens + 512,
{
    let wanted = total_tokens as u32 + 512;
    if wanted < 4096 {
        4096
    } else {
        wanted
    }
}

/// Drives one analysis over a fixed token sequence with a fixed batch
/// capacity. Chunks are contiguous, at most `batch_size` long, and cover
/// the sequence in order; positions are absolute, strictly increasing and
/// gapless. One record is accumulated per position handed back.
pub struct DecodeDriver {
    tokens: Vec<i32>,
    batch_size: usize,
    processed: usize,
    records: Vec<PositionRecord>,
    fed: Ghost<Seq<Seq<Candidate>>>,
}

impl DecodeDriver {
    /// The token ids under analysis, in their original order.
    pub closed spec fn tokens_view(&self) -> Seq<i32> {
        self.tokens@
    }

    /// The batch capacity the driver was created with.
    pub closed spec fn batch_size_spec(&self) -> int {
        self.batch_size as int
    }

    /// How many positions have been decoded and recorded so far.
    pub closed spec fn processed_spec(&self) -> int {
        self.processed as int
    }

    /// The candidate sets fed back so far, one per processed position.
    pub closed spec fn fed(&self) -> Seq<Seq<Candidate>> {
        self.fed@
    }

    /// The accumulated records, reduced to their mathematical content.
    pub closed spec fn records_view(&self) -> Seq<(int, u32, Seq<(i32, u32)>)> {
        self.records@.map_values(|r: PositionRecord| record_view(r))
    }

    /// Internal consistency: one record per processed position, and every
    /// record determined by the token sequence and that position's
    /// candidate set alone.
    pub closed spec fn wf(&self) -> bool {
        &&& self.batch_size >= 1
        &&& self.processed <= self.tokens@.len()
        &&& self.records@.len() == self.processed as int
        &&& self.fed@.len() == self.processed as int
        &&& forall|p: int|
            0 <= p < self.processed as int ==> record_view(#[trigger] self.records@[p])
                == spec_record(self.tokens@, self.fed@[p], p)
    }

    /// All positions are processed.
    pub open spec fn done(&self) -> bool {
        self.processed_spec() == self.tokens_view().len()
    }

    /// Length of the next chunk: at most the batch capacity, at most what
    /// is left.
    pub open spec fn chunk_len_spec(&self) -> int {
        if self.tokens_view().len() - self.processed_spec() < self.batch_size_spec() {
            self.tokens_view().len() - self.processed_spec()
        } else {
            self.batch_size_spec()
        }
    }

    pub fn new(tokens: Vec<i32>, batch_size: usize) -> (d: DecodeDriver)
        requires
            batch_size >= 1,
        ensures
            d.wf(),
            d.tokens_view() == tokens@,
            d.batch_size_spec() == batch_size as int,
            d.processed_spec() == 0,
            d.fed() == Seq::<Seq<Candidate>>::empty(),
            d.records_view() == Seq::<(int, u32, Seq<(i32, u32)>)>::empty(),
            d.done() <==> tokens@.len() == 0,
    {
        let d = DecodeDriver {
            tokens,
            batch_size,
            processed: 0,
            records: Vec::new(),
            fed: Ghost(Seq::empty()),
        };
        proof {
            assert(d.records_view() =~= Seq::<(int, u32, Seq<(i32, u32)>)>::empty());
        }
        d
    }

    /// Total number of tokens under analysis.
    pub fn total(&self) -> (n: usize)
        ensures
            n as int == self.tokens_view().len(),
    {
        self.tokens.len()
    }

    /// Progress so far: positions processed out of the total. Emitted by
    /// the caller before each chunk's decode call, so it reports "about to
    /// process", never "just finished".
    pub fn progress(&self) -> (p: (usize, usize))
        ensures
            p.0 as int == self.processed_spec(),
            p.1 as int == self.tokens_view().len(),
    {
        (self.processed, self.tokens.len())
    }

    pub fn is_done(&self) -> (r: bool)
        ensures
            r == self.done(),
    {
        self.processed == self.tokens.len()
    }

    /// The next chunk to decode, each token paired with its absolute
    /// position in the original sequence, or `None` when everything is
    /// processed. Positions are consecutive and start where the previous
    /// chunk ended: no gaps, no reuse.
    pub fn next_chunk(&self) -> (r: Option<Vec<(i32, usize)>>)
        requires
            self.wf(),
        ensures
            match r {
                Option::None => self.done(),
                Option::Some(v) => {
                    &&& !self.done()
                    &&& v@.len() == self.chunk_len_spec()
                    &&& forall|k: int|
                        0 <= k < v@.len() ==> (#[trigger] v@[k]).0 == self.tokens_view()[
                            self.processed_spec() + k
                        ] && v@[k].1 as int == self.processed_spec() + k
                },
            },
    {
        let n = self.tokens.len();
        if self.processed == n {
            return Option::None;
        }
        let remaining = n - self.processed;
        let len = if remaining < self.batch_size {
            remaining
        } else {
            self.batch_size
        };
        let mut v: Vec<(i32, usize)> = Vec::new();
        let mut k: usize = 0;
        while k < len
            invariant
                k <= len,
                len as int == self.chunk_len_spec(),
                n == self.tokens@.len(),
                self.processed + len <= n,
                v@.len() == k as int,
                forall|m: int|
                    0 <= m < k as int ==> (#[trigger] v@[m]).0 == self.tokens@[
                        self.processed as int + m
                    ] && v@[m].1 as int == self.processed as int + m,
            decreases len - k,
        {
            v.push((self.tokens[self.processed + k], self.processed + k));
            k += 1;
        }
        Option::Some(v)
    }

    /// Take back the candidate sets the engine produced for the current
    /// chunk, one per position in order, and record each position's
    /// metrics: the actual next token is the token at the following
    /// absolute position, and the final position of the whole sequence has
    /// none.
    pub fn push_chunk(&mut self, chunk_candidates: Vec<Vec<Candidate>>)
        requires
            old(self).wf(),
            !old(self).done(),
            chunk_candidates@.len() == old(self).chunk_len_spec(),
        ensures
            final(self).wf(),
            final(self).tokens_view() == old(self).tokens_view(),
            final(self).batch_size_spec() == old(self).batch_size_spec(),
            final(self).processed_spec() == old(self).processed_spec()
                + chunk_candidates@.len(),
            final(self).fed() == old(self).fed() + chunk_candidates@.map_values(
                |v: Vec<Candidate>| v@,
            ),
            final(self).records_view() == old(self).records_view() + Seq::new(
                chunk_candidates@.len(),
                |k: int|
                    spec_record(
                        old(self).tokens_view(),
                        chunk_candidates@[k]@,
                        old(self).processed_spec() + k,
                    ),
            ),
    {
        let ghost toks = self.tokens@;
        let ghost base = self.processed as int;
        let ghost fed0 = self.fed@;
        let ghost recs0 = self.records@;
        let clen = chunk_candidates.len();
        let n = self.tokens.len();
        let mut i: usize = 0;
        while i < clen
            invariant
                i <= clen,
                self.tokens@ == toks,
                n == toks.len(),
                self.batch_size == old(self).batch_size,
                self.processed as int == base,
                base + clen <= toks.len(),
                chunk_candidates@.len() == clen as int,
                self.records@.len() == recs0.len() + i as int,
                self.fed@.len() == fed0.len() + i as int,
                forall|p: int| 0 <= p < recs0.len() ==> #[trigger] self.records@[p] == recs0[p],
                forall|p: int| 0 <= p < fed0.len() ==> #[trigger] self.fed@[p] == fed0[p],
                forall|k: int|
                    0 <= k < i as int ==> record_view(
                        #[trigger] self.records@[recs0.len() + k],
                    ) == spec_record(toks, chunk_candidates@[k]@, base + k),
                forall|k: int|
                    0 <= k < i as int ==> #[trigger] self.fed@[fed0.len() + k]
                        == chunk_candidates@[k]@,
            decreases clen - i,
        {
            let mut cands = chunk_candidates[i].clone();
            proof {
                assert(cands@ =~= chunk_candidates@[i as int]@);
            }
            let ghost given = cands@;
            let global = self.processed + i;
            let record = if global < n - 1 {
                let target = self.tokens[global + 1];
                let (rank, probability_bits, top) = calculate_token_metrics(
                    &mut cands,
                    Option::Some(target),
                );
                PositionRecord { rank, probability_bits, top }
            } else {
                PositionRecord { rank: 1, probability_bits: 0, top: Vec::new() }
            };
            proof {
                if !(base + i as int + 1 < toks.len()) {
                    assert(record.top@ =~= Seq::<(i32, u32)>::empty());
                }
            }
            self.records.push(record);
            self.fed = Ghost(self.fed@.push(given));
            i += 1;
        }
        self.processed = self.processed + clen;
        proof {
            let target = fed0 + chunk_candidates@.map_values(|v: Vec<Candidate>| v@);
            assert(self.fed@.len() == target.len());
            assert forall|p: int| 0 <= p < self.fed@.len() implies self.fed@[p] == target[p] by {
                if p < fed0.len() {
                    assert(self.fed@[p] == fed0[p]);
                } else {
                    let k = p - fed0.len();
                    assert(self.fed@[fed0.len() + k] == chunk_candidates@[k]@);
                    assert(target[p] == chunk_candidates@.map_values(|v: Vec<Candidate>| v@)[k]);
                }
            }
            assert(self.fed@ =~= fed0 + chunk_candidates@.map_values(|v: Vec<Candidate>| v@));
            assert(self.records_view() =~= recs0.map_values(|r: PositionRecord| record_view(r))
                + Seq::new(
                chunk_candidates@.len(),
                |k: int| spec_record(toks, chunk_candidates@[k]@, base + k),
            ));
            assert forall|p: int| 0 <= p < self.processed as int implies record_view(
                #[trigger] self.records@[p],
            ) == spec_record(self.tokens@, self.fed@[p], p) by {
                if p < base {
                    assert(self.records@[p] == recs0[p]);
                    assert(self.fed@[p] == fed0[p]);
                    assert(record_view(recs0[p]) == spec_record(toks, fed0[p], p));
                } else {
                    let k = p - base;
                    assert(record_view(self.records@[recs0.len() + k]) == spec_record(
                        toks,
                        chunk_candidates@[k]@,
                        base + k,
                    ));
                    assert(self.fed@[fed0.len() + k] == chunk_candidates@[k]@);
                }
            }
        }
    }

    /// Hand out the finished records, one per position in order.
    pub fn into_records(self) -> (r: Vec<PositionRecord>)
        requires
            self.wf(),
            self.done(),
        ensures
            r@.map_values(|rec: PositionRecord| record_view(rec)) == self.records_view(),
            r@.len() == self.tokens_view().len(),
    {
        self.records
    }
}

/// Batching transparency: two finished drivers over the same token
/// sequence, fed the same candidate sets position by position, hold
/// identical records — whatever their batch capacities were. The records
/// depend on the tokens and the engine's answers alone, never on how the
/// sequence was cut into chunks.
pub proof fn lemma_batching_transparency(d1: &DecodeDriver, d2: &DecodeDriver)
    requires
        d1.wf(),
        d2.wf(),
        d1.done(),
        d2.done(),
        d1.tokens_view() == d2.tokens_view(),
        d1.fed() == d2.fed(),
    ensures
        d1.records_view() == d2.records_view(),
{
    assert forall|p: int| 0 <= p < d1.records_view().len() implies d1.records_view()[p]
        == d2.records_view()[p] by {
        assert(record_view(d1.records@[p]) == spec_record(d1.tokens@, d1.fed@[p], p));
        assert(record_view(d2.records@[p]) == spec_record(d2.tokens@, d2.fed@[p], p));
    }
    assert(d1.records_view() =~= d2.records_view());
}

/// Build the final result from the finished records and the decoded texts:
/// `token_texts[j]` is the text of token `j`, and `prediction_texts[i][k]`
/// the text of the `k`-th top prediction of record `i`. Token 0 takes the
/// placeholder rank 1 and probability +0.0 (nothing preceded it); token
/// `j >= 1` takes record `j - 1`, the metrics of the position that
/// predicted it.
pub fn assemble_result(
    token_texts: Vec<String>,
    records: Vec<PositionRecord>,
    prediction_texts: Vec<Vec<String>>,
    processing_time_ms: u64,
) -> (r: AnalysisResult)
    requires
        records@.len() == token_texts@.len(),
        prediction_texts@.len() == token_texts@.len(),
        forall|i: int|
            0 <= i < records@.len() ==> (#[trigger] prediction_texts@[i])@.len()
                == records@[i].top@.len(),
    ensures
        r.processing_time_ms == processing_time_ms,
        r.tokens@.len() == token_texts@.len(),
        forall|j: int|
            0 <= j < r.tokens@.len() ==> {
                let t = #[trigger] r.tokens@[j];
                &&& t.text == token_texts@[j]
                &&& t.display_text@ == display_of(token_texts@[j]@)
                &&& t.rank as int == if j == 0 {
                    1int
                } else {
                    record_view(records@[j - 1]).0
                }
                &&& t.probability_bits == if j == 0 {
                    0u32
                } else {
                    record_view(records@[j - 1]).1
                }
                &&& t.top_predictions@.len() == if j == 0 {
                    0int
                } else {
                    records@[j - 1].top@.len() as int
                }
                &&& j > 0 ==> forall|k: int|
                    0 <= k < t.top_predictions@.len() ==> (#[trigger] t.top_predictions@[k]).0
                        == prediction_texts@[j - 1]@[k] && t.top_predictions@[k].1 == records@[
                        j - 1
                    ].top@[k].1
            },
{
    let n = token_texts.len();
    let mut tokens: Vec<AnalyzedToken> = Vec::new();
    let mut j: usize = 0;
    while j < n
        invariant
            j <= n,
            n == token_texts@.len(),
            records@.len() == n as int,
            prediction_texts@.len() == n as int,
            forall|i: int|
                0 <= i < records@.len() ==> (#[trigger] prediction_texts@[i])@.len()
                    == records@[i].top@.len(),
            tokens@.len() == j as int,
            forall|jj: int|
                0 <= jj < j as int ==> {
                    let t = #[trigger] tokens@[jj];
                    &&& t.text == token_texts@[jj]
                    &&& t.display_text@ == display_of(token_texts@[jj]@)
                    &&& t.rank as int == if jj == 0 {
                        1int
                    } else {
                        record_view(records@[jj - 1]).0
                    }
                    &&& t.probability_bits == if jj == 0 {
                        0u32
                    } else {
                        record_view(records@[jj - 1]).1
                    }
                    &&& t.top_predictions@.len() == if jj == 0 {
                        0int
                    } else {
                        records@[jj - 1].top@.len() as int
                    }
                    &&& jj > 0 ==> forall|k: int|
                        0 <= k < t.top_predictions@.len() ==> (#[trigger] t.top_predictions@[
                            k
                        ]).0 == prediction_texts@[jj - 1]@[k] && t.top_predictions@[k].1
                            == records@[jj - 1].top@[k].1
                },
        decreases n - j,
    {
        let text = token_texts[j].clone();
        let t = if j == 0 {
            AnalyzedToken::new(text, 1, Vec::new(), 0)
        } else {
            let m = records[j - 1].top.len();
            let mut preds: Vec<(String, u32)> = Vec::new();
            let mut k: usize = 0;
            while k < m
                invariant
                    k <= m,
                    1 <= j < n,
                    n == token_texts@.len(),
                    records@.len() == n as int,
                    prediction_texts@.len() == n as int,
                    m as int == records@[j - 1].top@.len(),
                    prediction_texts@[j - 1]@.len() == m as int,
                    preds@.len() == k as int,
                    forall|kk: int|
                        0 <= kk < k as int ==> (#[trigger] preds@[kk]).0 == prediction_texts@[
                            j - 1
                        ]@[kk] && preds@[kk].1 == records@[j - 1].top@[kk].1,
                decreases m - k,
            {
                preds.push((prediction_texts[j - 1][k].clone(), records[j - 1].top[k].1));
                k += 1;
            }
            AnalyzedToken::new(text, records[j - 1].rank, preds, records[j - 1].probability_bits)
        };
        tokens.push(t);
        j += 1;
    }
    AnalysisResult::new(tokens, processing_time_ms)
}

} // verus!
