//! The outcome of an analysis: one record per input token, and the exact
//! integer cores of the aggregate statistics.
//!
//! The aggregate formulas divide, take logarithms of and exponentiate these
//! cores in floating point; that last step is left to the embedding
//! program, while everything the statistics *select* and *count* is fixed
//! here: the first token is excluded, the remaining `N - 1` tokens are
//! summed and counted exactly.

use vstd::prelude::*;
use vstd::string::StrSliceExecFns;
use vstd::string::StringExecFns;

verus! {

/// How one character is rewritten for display: a newline gains a visible
/// marker before it, a tab becomes a visible arrow, and every other
/// character stands unchanged.
pub open spec fn display_char(c: char) -> Seq<char> {
    if c == '\n' {
        seq!['↵', '\n']
    } else if c == '\t' {
        seq!['→']
    } else {
        seq![c]
    }
}

/// The display form of a whole text: each character rewritten in order.
pub open spec fn display_of(s: Seq<char>) -> Seq<char>
    decreases s.len(),
{
    if s.len() == 0 {
        Seq::<char>::empty()
    } else {
        display_of(s.drop_last()) + display_char(s.last())
    }
}

/// Relies on String::push: appends exactly the given character.
#[verifier::external_body]
fn push_char(s: &mut String, c: char)
    ensures
        final(s)@ == old(s)@.push(c),
{
    s.push(c);
}

/// Rewrite control characters of `text` for visual display.
fn derive_display(text: &str) -> (r: String)
    ensures
        r@ == display_of(text@),
{
    let n = text.unicode_len();
    let mut out = String::new();
    let mut i: usize = 0;
    while i < n
        invariant
            n == text@.len(),
            i <= n,
            out@ == display_of(text@.take(i as int)),
        decreases n - i,
    {
        let c = text.get_char(i);
        if c == '\n' {
            out.append("↵\n");
            proof {
                reveal_strlit("↵\n");
                assert(("↵\n")@ =~= seq!['↵', '\n']);
            }
        } else if c == '\t' {
            out.append("→");
            proof {
                reveal_strlit("→");
                assert(("→")@ =~= seq!['→']);
            }
        } else {
            push_char(&mut out, c);
            proof {
                assert(out@ =~= display_of(text@.take(i as int)) + display_char(c));
            }
        }
        proof {
            assert(text@.take(i + 1).drop_last() =~= text@.take(i as int));
            assert(text@.take(i + 1).last() == c);
        }
        i += 1;
    }
    proof {
        assert(text@.take(n as int) =~= text@);
    }
    out
}

/// The per-token unit of output.
///
/// `rank` is the 1-based rank of this token among the model's candidates at
/// the position before it; `probability_bits` carries the probability mass
/// the model assigned to it, as the raw bits of an IEEE 754 single (0
/// encodes +0.0). The first token of a sequence has no prior context and
/// holds rank 1 and probability bits 0 by convention; it is a display
/// placeholder and is excluded from every aggregate. `top_predictions`
/// pairs the decoded text of the strongest candidates with their
/// probability bits, in descending order of probability.
#[derive(Debug, Clone)]
pub struct AnalyzedToken {
    pub text: String,
    pub display_text: String,
    pub rank: usize,
    pub top_predictions: Vec<(String, u32)>,
    pub probability_bits: u32,
}

impl AnalyzedToken {
    /// Build a record, deriving the display form of `text` once.
    pub fn new(
        text: String,
        rank: usize,
        top_predictions: Vec<(String, u32)>,
        probability_bits: u32,
    ) -> (t: AnalyzedToken)
        ensures
            t.text == text,
            t.display_text@ == display_of(text@),
            t.rank == rank,
            t.top_predictions == top_predictions,
            t.probability_bits == probability_bits,
    {
        let display_text = derive_display(text.as_str());
        AnalyzedToken { text, display_text, rank, top_predictions, probability_bits }
    }
}

/// The tokens that carry predictive information: all but the first.
pub open spec fn scored(s: Seq<AnalyzedToken>) -> Seq<AnalyzedToken> {
    if s.len() == 0 {
        Seq::<AnalyzedToken>::empty()
    } else {
        s.skip(1)
    }
}

/// Sum of the ranks of a token sequence.
pub open spec fn sum_ranks(s: Seq<AnalyzedToken>) -> int
    decreases s.len(),
{
    if s.len() == 0 {
        0
    } else {
        sum_ranks(s.drop_last()) + s.last().rank
    }
}

/// How many tokens were predicted exactly (rank 1).
pub open spec fn count_exact(s: Seq<AnalyzedToken>) -> int
    decreases s.len(),
{
    if s.len() == 0 {
        0int
    } else {
        count_exact(s.drop_last()) + if s.last().rank == 1 {
            1int
        } else {
            0int
        }
    }
}

/// The ordered per-token results of one analysis, plus the wall-clock time
/// the analysis took. Immutable once constructed: every statistic below is
/// a pure function of the token sequence, recomputed on demand.
#[derive(Debug, Clone)]
pub struct AnalysisResult {
    pub tokens: Vec<AnalyzedToken>,
    pub processing_time_ms: u64,
}

impl AnalysisResult {
    pub fn new(tokens: Vec<AnalyzedToken>, processing_time_ms: u64) -> (r: AnalysisResult)
        ensures
            r.tokens == tokens,
            r.processing_time_ms == processing_time_ms,
    {
        AnalysisResult { tokens, processing_time_ms }
    }

    /// How many tokens the aggregate statistics consider: exactly `N - 1`
    /// for `N >= 1` tokens, and 0 for an empty or single-token sequence.
    pub fn scored_count(&self) -> (r: usize)
        ensures
            r as int == scored(self.tokens@).len(),
            r as int == if self.tokens@.len() <= 1 {
                0int
            } else {
                self.tokens@.len() - 1
            },
    {
        if self.tokens.len() <= 1 {
            proof {
                if self.tokens@.len() == 1 {
                    assert(scored(self.tokens@) =~= Seq::<AnalyzedToken>::empty());
                }
            }
            0
        } else {
            self.tokens.len() - 1
        }
    }

    /// Sum of the ranks over the scored tokens: the exact numerator of
    /// `average_rank`, whose value is this sum divided by `scored_count`.
    pub fn rank_sum(&self) -> (r: u128)
        ensures
            r as int == sum_ranks(scored(self.tokens@)),
    {
        let n = self.tokens.len();
        if n <= 1 {
            proof {
                if self.tokens@.len() == 1 {
                    assert(scored(self.tokens@) =~= Seq::<AnalyzedToken>::empty());
                }
            }
            return 0;
        }
        let mut sum: u128 = 0;
        let mut i: usize = 1;
        proof {
            assert(self.tokens@.subrange(1, 1) =~= Seq::<AnalyzedToken>::empty());
        }
        while i < n
            invariant
                1 <= i <= n,
                n == self.tokens@.len(),
                sum as int == sum_ranks(self.tokens@.subrange(1, i as int)),
                sum as int <= (i - 1) * (usize::MAX as int),
            decreases n - i,
        {
            let rk = self.tokens[i].rank;
            proof {
                assert(sum as int + rk as int <= i as int * (usize::MAX as int))
                    by (nonlinear_arith)
                    requires
                        sum as int <= (i as int - 1) * (usize::MAX as int),
                        rk as int <= usize::MAX as int,
                ;
                assert(i as int * (usize::MAX as int) <= u128::MAX as int) by (nonlinear_arith)
                    requires
                        0 <= i as int <= usize::MAX as int,
                        usize::MAX as int <= u64::MAX as int,
                ;
                assert(self.tokens@.subrange(1, i + 1).drop_last() =~= self.tokens@.subrange(
                    1,
                    i as int,
                ));
                assert(self.tokens@.subrange(1, i + 1).last() == self.tokens@[i as int]);
            }
            sum = sum + rk as u128;
            i += 1;
        }
        proof {
            assert(self.tokens@.subrange(1, n as int) =~= scored(self.tokens@));
        }
        sum
    }

    /// How many scored tokens were predicted exactly: the numerator of
    /// `exact_prediction_percentage`, whose value is `100` times this count
    /// divided by `scored_count`.
    pub fn exact_count(&self) -> (r: usize)
        ensures
            r as int == count_exact(scored(self.tokens@)),
    {
        let n = self.tokens.len();
        if n <= 1 {
            proof {
                if self.tokens@.len() == 1 {
                    assert(scored(self.tokens@) =~= Seq::<AnalyzedToken>::empty());
                }
            }
            return 0;
        }
        let mut count: usize = 0;
        let mut i: usize = 1;
        proof {
            assert(self.tokens@.subrange(1, 1) =~= Seq::<AnalyzedToken>::empty());
        }
        while i < n
            invariant
                1 <= i <= n,
                n == self.tokens@.len(),
                count as int == count_exact(self.tokens@.subrange(1, i as int)),
                count as int <= i - 1,
            decreases n - i,
        {
            proof {
                assert(self.tokens@.subrange(1, i + 1).drop_last() =~= self.tokens@.subrange(
                    1,
                    i as int,
                ));
                assert(self.tokens@.subrange(1, i + 1).last() == self.tokens@[i as int]);
            }
            if self.tokens[i].rank == 1 {
                count += 1;
            }
            i += 1;
        }
        proof {
            assert(self.tokens@.subrange(1, n as int) =~= scored(self.tokens@));
        }
        count
    }

    /// The probability bits of the scored tokens, in order: the inputs of
    /// `perplexity`, which is `exp(mean(-ln(p_i)))` over exactly these
    /// values (and of `text_entropy`, `N * log2(perplexity)`).
    pub fn scored_probability_bits(&self) -> (r: Vec<u32>)
        ensures
            r@ == scored(self.tokens@).map_values(|t: AnalyzedToken| t.probability_bits),
    {
        let mut r: Vec<u32> = Vec::new();
        let n = self.tokens.len();
        if n <= 1 {
            proof {
                if self.tokens@.len() == 1 {
                    assert(scored(self.tokens@) =~= Seq::<AnalyzedToken>::empty());
                }
                assert(r@ =~= scored(self.tokens@).map_values(
                    |t: AnalyzedToken| t.probability_bits,
                ));
            }
            return r;
        }
        let mut i: usize = 1;
        while i < n
            invariant
                1 <= i <= n,
                n == self.tokens@.len(),
                r@ == self.tokens@.subrange(1, i as int).map_values(
                    |t: AnalyzedToken| t.probability_bits,
                ),
            decreases n - i,
        {
            r.push(self.tokens[i].probability_bits);
            proof {
                assert(self.tokens@.subrange(1, i + 1).map_values(
                    |t: AnalyzedToken| t.probability_bits,
                ) =~= self.tokens@.subrange(1, i as int).map_values(
                    |t: AnalyzedToken| t.probability_bits,
                ).push(self.tokens@[i as int].probability_bits));
            }
            i += 1;
        }
        proof {
            assert(self.tokens@.subrange(1, n as int) =~= scored(self.tokens@));
        }
        r
    }
}

/// Every aggregate is a pure function of the token sequence alone: two
/// results holding the same sequence yield identical aggregate cores, so
/// recomputing them from the same immutable result can never drift.
pub proof fn lemma_aggregates_pure(a: AnalysisResult, b: AnalysisResult)
    requires
        a.tokens@ == b.tokens@,
    ensures
        sum_ranks(scored(a.tokens@)) == sum_ranks(scored(b.tokens@)),
        count_exact(scored(a.tokens@)) == count_exact(scored(b.tokens@)),
        scored(a.tokens@).map_values(|t: AnalyzedToken| t.probability_bits) == scored(
            b.tokens@,
        ).map_values(|t: AnalyzedToken| t.probability_bits),
        scored(a.tokens@).len() == scored(b.tokens@).len(),
{
}

} // verus!
