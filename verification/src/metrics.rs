//! Per-position token metrics: ordering the model's candidates for the next
//! token, ranking the token that actually occurred, and selecting the
//! strongest alternatives.

use vstd::prelude::*;

verus! {

/// One candidate for the next token at a position.
///
/// `score` is an order-preserving integer encoding of the candidate's raw
/// logit: a larger score means a larger logit, so ordering candidates never
/// touches the floating-point value itself. `probability_bits` carries the
/// probability that the caller's normalized distribution assigns to this
/// candidate, as the raw bits of an IEEE 754 single precision value; the bit
/// pattern 0 encodes +0.0. Because the distribution is monotone in the raw
/// logit, ordering by `score` is also ordering by probability; the
/// probability bits themselves ride along opaquely.
#[derive(Debug, Clone, Copy, PartialEq, Eq, Structural)]
pub struct Candidate {
    pub id: i32,
    pub score: u32,
    pub probability_bits: u32,
}

/// The candidates are ordered by weakly decreasing score.
pub open spec fn sorted_desc(s: Seq<Candidate>) -> bool {
    forall|i: int, j: int| 0 <= i < j < s.len() ==> s[i].score >= s[j].score
}

/// Where a stable descending insertion places `c`: after every candidate
/// of the maximal prefix whose scores are at least `c.score`.
pub open spec fn insert_pos(s: Seq<Candidate>, c: Candidate) -> int
    decreases s.len(),
{
    if s.len() == 0 {
        0
    } else if s.first().score >= c.score {
        1 + insert_pos(s.drop_first(), c)
    } else {
        0
    }
}

/// Insert `c` into `s` behind every candidate whose score is at least
/// `c.score`, keeping the order of the others.
pub open spec fn insert_desc(s: Seq<Candidate>, c: Candidate) -> Seq<Candidate>
    decreases s.len(),
{
    if s.len() == 0 {
        seq![c]
    } else if s.first().score >= c.score {
        seq![s.first()] + insert_desc(s.drop_first(), c)
    } else {
        seq![c] + s
    }
}

/// Stable descending sort by score: candidates with equal scores keep their
/// original relative order.
pub open spec fn sort_desc(s: Seq<Candidate>) -> Seq<Candidate>
    decreases s.len(),
{
    if s.len() == 0 {
        Seq::<Candidate>::empty()
    } else {
        insert_desc(sort_desc(s.drop_last()), s.last())
    }
}

/// Some candidate carries the token id `id`.
pub open spec fn has_id(s: Seq<Candidate>, id: i32) -> bool {
    exists|k: int| 0 <= k < s.len() && s[k].id == id
}

/// Index of the first candidate carrying `id`.
pub open spec fn first_index_of_id(s: Seq<Candidate>, id: i32) -> int
    recommends
        has_id(s, id),
    decreases s.len(),
{
    if s.len() == 0 {
        0
    } else if s.first().id == id {
        0
    } else {
        1 + first_index_of_id(s.drop_first(), id)
    }
}

/// 1-based rank of the actual next token among the candidates, counted in
/// the stable descending order. Rank 1 also stands for "no information":
/// an empty candidate set, no actual next token, or an actual token that the
/// engine did not surface among its candidates.
pub open spec fn spec_rank(cands: Seq<Candidate>, actual: Option<i32>) -> int {
    match actual {
        Option::Some(id) => {
            if has_id(cands, id) {
                first_index_of_id(sort_desc(cands), id) + 1
            } else {
                1
            }
        },
        Option::None => 1,
    }
}

/// Probability bits recorded for the actual next token: those of its first
/// entry in the stable descending order, or the bits of +0.0 when there is
/// no information.
pub open spec fn spec_probability_bits(cands: Seq<Candidate>, actual: Option<i32>) -> u32 {
    match actual {
        Option::Some(id) => {
            if has_id(cands, id) {
                sort_desc(cands)[first_index_of_id(sort_desc(cands), id)].probability_bits
            } else {
                0u32
            }
        },
        Option::None => 0u32,
    }
}

/// The strongest candidates, at most five, in stable descending order, each
/// reduced to its id and probability bits.
pub open spec fn spec_top_predictions(cands: Seq<Candidate>) -> Seq<(i32, u32)> {
    let n = if cands.len() < 5 { cands.len() as int } else { 5int };
    sort_desc(cands).take(n).map_values(|c: Candidate| (c.id, c.probability_bits))
}

/// `insert_pos` is the length of the maximal prefix whose scores are at
/// least `c.score`.
proof fn lemma_insert_pos_props(s: Seq<Candidate>, c: Candidate)
    ensures
        0 <= insert_pos(s, c) <= s.len(),
        forall|k: int| 0 <= k < insert_pos(s, c) ==> s[k].score >= c.score,
        insert_pos(s, c) < s.len() ==> s[insert_pos(s, c)].score < c.score,
    decreases s.len(),
{
    if s.len() == 0 {
    } else if s.first().score >= c.score {
        lemma_insert_pos_props(s.drop_first(), c);
        assert forall|k: int| 0 <= k < insert_pos(s, c) implies s[k].score >= c.score by {
            if k > 0 {
                assert(s.drop_first()[k - 1] == s[k]);
            }
        }
        if insert_pos(s, c) < s.len() {
            assert(s.drop_first()[insert_pos(s.drop_first(), c)] == s[insert_pos(s, c)]);
        }
    } else {
    }
}

/// A stable descending insertion is an insertion at `insert_pos`.
proof fn lemma_insert_desc_shape(s: Seq<Candidate>, c: Candidate)
    ensures
        insert_desc(s, c) == s.insert(insert_pos(s, c), c),
        insert_desc(s, c).len() == s.len() + 1,
    decreases s.len(),
{
    lemma_insert_pos_props(s, c);
    if s.len() == 0 {
        assert(insert_desc(s, c) =~= s.insert(0, c));
    } else if s.first().score >= c.score {
        lemma_insert_desc_shape(s.drop_first(), c);
        let j = insert_pos(s.drop_first(), c);
        assert(insert_desc(s, c) =~= s.insert(j + 1, c)) by {
            lemma_insert_pos_props(s.drop_first(), c);
            assert forall|k: int| 0 <= k < s.len() + 1 implies insert_desc(s, c)[k] == s.insert(
                j + 1,
                c,
            )[k] by {
                if k > 0 {
                    assert(insert_desc(s, c)[k] == s.drop_first().insert(j, c)[k - 1]);
                }
            }
        }
    } else {
        assert(insert_desc(s, c) =~= s.insert(0, c));
    }
}

/// What each index of `s.insert(j, c)` holds.
proof fn lemma_insert_index(s: Seq<Candidate>, j: int, c: Candidate)
    requires
        0 <= j <= s.len(),
    ensures
        s.insert(j, c).len() == s.len() + 1,
        forall|k: int| 0 <= k < j ==> s.insert(j, c)[k] == s[k],
        s.insert(j, c)[j] == c,
        forall|k: int| j < k <= s.len() ==> s.insert(j, c)[k] == s[k - 1],
{
}

/// Inserting keeps a descending order when the insertion point splits the
/// scores around `c.score`.
proof fn lemma_insert_desc_sorted(s: Seq<Candidate>, c: Candidate)
    requires
        sorted_desc(s),
    ensures
        sorted_desc(insert_desc(s, c)),
{
    lemma_insert_pos_props(s, c);
    lemma_insert_desc_shape(s, c);
    let j = insert_pos(s, c);
    lemma_insert_index(s, j, c);
    let r = s.insert(j, c);
    assert forall|a: int, b: int| 0 <= a < b < r.len() implies r[a].score >= r[b].score by {
        if a < j && b == j {
            assert(r[a] == s[a]);
        } else if a == j && b > j {
            assert(r[b] == s[b - 1]);
            if b - 1 > j {
                assert(s[j].score >= s[b - 1].score);
            }
        }
    }
}

/// Insertion adds exactly one element: membership before and after.
proof fn lemma_insert_desc_contains(s: Seq<Candidate>, c: Candidate)
    ensures
        forall|x: Candidate| #[trigger]
            insert_desc(s, c).contains(x) <==> (s.contains(x) || x == c),
{
    lemma_insert_pos_props(s, c);
    lemma_insert_desc_shape(s, c);
    let j = insert_pos(s, c);
    lemma_insert_index(s, j, c);
    let r = s.insert(j, c);
    assert forall|x: Candidate| #[trigger] r.contains(x) implies (s.contains(x) || x == c) by {
        let k = choose|k: int| 0 <= k < r.len() && r[k] == x;
        if k < j {
            assert(s[k] == x);
        } else if k > j {
            assert(s[k - 1] == x);
        }
    }
    assert forall|x: Candidate| s.contains(x) || x == c implies #[trigger] r.contains(x) by {
        if s.contains(x) {
            let k = choose|k: int| 0 <= k < s.len() && s[k] == x;
            if k < j {
                assert(r[k] == x);
            } else {
                assert(r[k + 1] == x);
            }
        } else {
            assert(r[j] == x);
        }
    }
}

/// Sorting keeps exactly the original candidates.
proof fn lemma_sort_desc_contains(s: Seq<Candidate>)
    ensures
        forall|x: Candidate| #[trigger] sort_desc(s).contains(x) <==> s.contains(x),
    decreases s.len(),
{
    if s.len() == 0 {
    } else {
        let rest = s.drop_last();
        lemma_sort_desc_contains(rest);
        lemma_insert_desc_contains(sort_desc(rest), s.last());
        assert forall|x: Candidate| #[trigger] sort_desc(s).contains(x) implies s.contains(x) by {
            if sort_desc(s).contains(x) {
                if rest.contains(x) {
                    let k = choose|k: int| 0 <= k < rest.len() && rest[k] == x;
                    assert(s[k] == x);
                } else {
                    assert(s[s.len() - 1] == x);
                }
            }
        }
        assert forall|x: Candidate| s.contains(x) implies #[trigger] sort_desc(s).contains(x) by {
            let k = choose|k: int| 0 <= k < s.len() && s[k] == x;
            if k < s.len() - 1 {
                assert(rest[k] == x);
            } else {
                assert(s.last() == x);
            }
        }
    }
}

/// The sorted sequence has the original length and is descending.
pub proof fn lemma_sort_desc_ensures(s: Seq<Candidate>)
    ensures
        sort_desc(s).len() == s.len(),
        sorted_desc(sort_desc(s)),
    decreases s.len(),
{
    if s.len() == 0 {
    } else {
        lemma_sort_desc_ensures(s.drop_last());
        lemma_insert_desc_shape(sort_desc(s.drop_last()), s.last());
        lemma_insert_desc_sorted(sort_desc(s.drop_last()), s.last());
    }
}

/// Sorting keeps exactly the original token ids.
pub proof fn lemma_sort_desc_has_id(s: Seq<Candidate>, id: i32)
    ensures
        has_id(sort_desc(s), id) <==> has_id(s, id),
{
    lemma_sort_desc_contains(s);
    if has_id(sort_desc(s), id) {
        let k = choose|k: int| 0 <= k < sort_desc(s).len() && sort_desc(s)[k].id == id;
        assert(sort_desc(s).contains(sort_desc(s)[k]));
        let x = sort_desc(s)[k];
        assert(s.contains(x));
        let m = choose|m: int| 0 <= m < s.len() && s[m] == x;
        assert(s[m].id == id);
    }
    if has_id(s, id) {
        let k = choose|k: int| 0 <= k < s.len() && s[k].id == id;
        assert(s.contains(s[k]));
        let x = s[k];
        assert(sort_desc(s).contains(x));
        let m = choose|m: int| 0 <= m < sort_desc(s).len() && sort_desc(s)[m] == x;
        assert(sort_desc(s)[m].id == id);
    }
}

/// `first_index_of_id` points at the first candidate carrying `id`.
pub proof fn lemma_first_index_of_id_ensures(s: Seq<Candidate>, id: i32)
    requires
        has_id(s, id),
    ensures
        0 <= first_index_of_id(s, id) < s.len(),
        s[first_index_of_id(s, id)].id == id,
        forall|k: int| 0 <= k < first_index_of_id(s, id) ==> s[k].id != id,
    decreases s.len(),
{
    if s.first().id == id {
    } else {
        assert(has_id(s.drop_first(), id)) by {
            let k = choose|k: int| 0 <= k < s.len() && s[k].id == id;
            assert(s.drop_first()[k - 1].id == id);
        }
        lemma_first_index_of_id_ensures(s.drop_first(), id);
        let j = first_index_of_id(s.drop_first(), id);
        assert(s[1 + j] == s.drop_first()[j]);
        assert forall|k: int| 0 <= k < 1 + j implies s[k].id != id by {
            if k > 0 {
                assert(s.drop_first()[k - 1] == s[k]);
            }
        }
    }
}

/// No two candidates carry the same token id.
pub open spec fn distinct_ids(s: Seq<Candidate>) -> bool {
    forall|i: int, j: int| 0 <= i < j < s.len() ==> s[i].id != s[j].id
}

/// Rank is strictly monotone in the raw logit: among one candidate set with
/// distinct ids, a candidate with the strictly larger score is ranked
/// strictly better (closer to 1) than one with the smaller score.
pub proof fn lemma_rank_monotonic(cands: Seq<Candidate>, i: int, j: int)
    requires
        distinct_ids(cands),
        0 <= i < cands.len(),
        0 <= j < cands.len(),
        cands[i].score > cands[j].score,
    ensures
        spec_rank(cands, Option::Some(cands[i].id)) < spec_rank(
            cands,
            Option::Some(cands[j].id),
        ),
{
    let s = sort_desc(cands);
    lemma_sort_desc_ensures(cands);
    lemma_sort_desc_contains(cands);
    assert(has_id(cands, cands[i].id));
    assert(has_id(cands, cands[j].id));
    lemma_sort_desc_has_id(cands, cands[i].id);
    lemma_sort_desc_has_id(cands, cands[j].id);
    lemma_first_index_of_id_ensures(s, cands[i].id);
    lemma_first_index_of_id_ensures(s, cands[j].id);
    let ia = first_index_of_id(s, cands[i].id);
    let ib = first_index_of_id(s, cands[j].id);
    // The entry found for an id is the unique original candidate with that id.
    assert(s[ia] == cands[i]) by {
        assert(s.contains(s[ia]));
        assert(cands.contains(s[ia]));
        let m = choose|m: int| 0 <= m < cands.len() && cands[m] == s[ia];
        assert(m == i);
    }
    assert(s[ib] == cands[j]) by {
        assert(s.contains(s[ib]));
        assert(cands.contains(s[ib]));
        let m = choose|m: int| 0 <= m < cands.len() && cands[m] == s[ib];
        assert(m == j);
    }
    assert(ia != ib);
    if ia > ib {
        assert(s[ib].score >= s[ia].score);
        assert(false);
    }
}

/// Sort the candidates in place: stable, descending by score.
fn sort_candidates(cands: &mut Vec<Candidate>)
    ensures
        final(cands)@ == sort_desc(old(cands)@),
{
    let ghost orig = cands@;
    let mut out: Vec<Candidate> = Vec::new();
    let mut i: usize = 0;
    proof {
        assert(orig.take(0) =~= Seq::<Candidate>::empty());
    }
    while i < cands.len()
        invariant
            i <= cands.len(),
            cands@ == orig,
            out@ == sort_desc(orig.take(i as int)),
        decreases cands.len() - i,
    {
        let c = cands[i];
        let mut j: usize = 0;
        while j < out.len() && out[j].score >= c.score
            invariant
                j <= out.len(),
                forall|k: int| 0 <= k < j ==> out@[k].score >= c.score,
            decreases out.len() - j,
        {
            j += 1;
        }
        proof {
            lemma_insert_pos_props(out@, c);
            lemma_insert_desc_shape(out@, c);
            // The scan stopped exactly at the stable insertion point.
            let p = insert_pos(out@, c);
            if p < j {
                assert(out@[p].score >= c.score);
            }
            if j < p {
                assert(out@[j as int].score >= c.score);
            }
            assert(p == j as int);
            assert(orig.take(i + 1).drop_last() =~= orig.take(i as int));
            assert(orig.take(i + 1).last() == orig[i as int]);
        }
        out.insert(j, c);
        i += 1;
    }
    proof {
        assert(orig.take(orig.len() as int) =~= orig);
    }
    *cands = out;
}

/// Compute `(rank, probability bits, top predictions)` for one position.
///
/// The candidate list is sorted in place, stable and descending by score.
/// The rank is 1 plus the index of the actual next token in that order; its
/// probability bits are taken from its candidate entry. When the candidate
/// list is empty, there is no actual next token, or the actual token is not
/// among the candidates, rank 1 and the bits of +0.0 are reported instead.
/// The top predictions are the first five sorted candidates, always
/// reported, whatever became of the actual token.
pub fn calculate_token_metrics(logits: &mut Vec<Candidate>, target_token: Option<i32>) -> (r: (
    usize,
    u32,
    Vec<(i32, u32)>,
))
    ensures
        final(logits)@ == sort_desc(old(logits)@),
        r.0 as int == spec_rank(old(logits)@, target_token),
        r.1 == spec_probability_bits(old(logits)@, target_token),
        r.2@ == spec_top_predictions(old(logits)@),
        // A candidate set without the actual token carries no information:
        // rank 1 and the bits of +0.0, never a fault.
        match target_token {
            Option::Some(id) => !has_id(old(logits)@, id) ==> r.0 == 1 && r.1 == 0u32,
            Option::None => r.0 == 1 && r.1 == 0u32,
        },
{
    let ghost orig = logits@;
    sort_candidates(logits);
    proof {
        lemma_sort_desc_ensures(orig);
    }

    let mut rank: usize = 1;
    let mut probability_bits: u32 = 0;

    match target_token {
        Option::Some(target_id) => {
            let mut idx: usize = 0;
            let mut found = false;
            while idx < logits.len() && !found
                invariant
                    idx <= logits@.len(),
                    !found ==> forall|k: int| 0 <= k < idx ==> logits@[k].id != target_id,
                    found ==> idx < logits@.len() && logits@[idx as int].id == target_id
                        && forall|k: int| 0 <= k < idx ==> logits@[k].id != target_id,
                decreases logits@.len() - idx + (if found {
                    0int
                } else {
                    1int
                }),
            {
                if logits[idx].id == target_id {
                    found = true;
                } else {
                    idx += 1;
                }
            }
            proof {
                lemma_sort_desc_has_id(orig, target_id);
            }
            if found {
                rank = idx + 1;
                probability_bits = logits[idx].probability_bits;
                proof {
                    assert(has_id(logits@, target_id));
                    lemma_first_index_of_id_ensures(logits@, target_id);
                    let f = first_index_of_id(logits@, target_id);
                    if f < idx {
                        assert(logits@[f].id != target_id);
                    }
                    assert(f == idx as int);
                }
            } else {
                proof {
                    assert(!has_id(logits@, target_id)) by {
                        if has_id(logits@, target_id) {
                            let k = choose|k: int|
                                0 <= k < logits@.len() && logits@[k].id == target_id;
                            assert(logits@[k].id != target_id);
                        }
                    }
                }
            }
        },
        Option::None => {},
    }

    let limit = if logits.len() < 5 {
        logits.len()
    } else {
        5
    };
    let mut top: Vec<(i32, u32)> = Vec::new();
    let mut k: usize = 0;
    proof {
        assert(logits@.take(0).map_values(|c: Candidate| (c.id, c.probability_bits)) =~= Seq::<
            (i32, u32),
        >::empty());
    }
    while k < limit
        invariant
            k <= limit,
            limit == if logits@.len() < 5 {
                logits@.len() as int
            } else {
                5int
            },
            logits@ == sort_desc(orig),
            top@ == logits@.take(k as int).map_values(|c: Candidate| (c.id, c.probability_bits)),
        decreases limit - k,
    {
        top.push((logits[k].id, logits[k].probability_bits));
        proof {
            assert(logits@.take(k + 1).map_values(|c: Candidate| (c.id, c.probability_bits)) =~= logits@.take(
                k as int,
            ).map_values(|c: Candidate| (c.id, c.probability_bits)).push(
                (logits@[k as int].id, logits@[k as int].probability_bits),
            ));
        }
        k += 1;
    }

    (rank, probability_bits, top)
}

} // verus!
