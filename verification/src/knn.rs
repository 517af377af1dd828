//! The nearest neighbours among examples: their texts, and the choice by score.

use crate::adapter::around;
use crate::example::{example_list, lemma_example_list, Example, ExampleSpec};
use crate::prediction::field_text;
use crate::text::{join, join_of, push_text, texts};
use vstd::prelude::*;

verus! {

/// Examples among which the nearest are looked for.
#[derive(Debug)]
pub struct KNN {
    pub k: usize,
    pub trainset: Vec<Example>,
}

/// The line `name: value` of each field that is a text; a field that is none has no
/// value.
pub open spec fn field_lines(e: ExampleSpec) -> Seq<Seq<char>> {
    e.keys.map_values(|k: Seq<char>| k + ": "@ + field_text(e, k))
}

/// The text of an example: its input fields, or all of them where no input keys are set.
pub open spec fn example_text(e: ExampleSpec) -> Seq<char> {
    join_of(field_lines(e.inputs()), " | "@)
}

/// The lines of a query.
pub open spec fn query_lines(fields: Seq<(&str, &str)>) -> Seq<Seq<char>> {
    fields.map_values(|f: (&str, &str)| f.0@ + ": "@ + f.1@)
}

fn push_lines(e: &Example) -> (r: Vec<String>)
    ensures
        texts(r@) == field_lines(e@),
{
    let keys = e.keys();
    let ghost want = field_lines(e@);
    let mut r: Vec<String> = Vec::new();
    let mut i: usize = 0;
    proof {
        assert(texts(r@) =~= want.take(0));
    }
    while i < keys.len()
        invariant
            i <= keys.len(),
            texts(keys@) == e@.keys,
            want == field_lines(e@),
            texts(r@) == want.take(i as int),
        decreases keys.len() - i,
    {
        proof {
            assert(texts(keys@)[i as int] == keys@[i as int]@);
        }
        let mut line = keys[i].clone();
        line.append(": ");
        match e.get_str(keys[i].as_str()) {
            Some(t) => {
                line.append(t);
            },
            None => {
                proof {
                    assert(line@ + Seq::<char>::empty() =~= line@);
                }
            },
        }
        push_text(&mut r, line);
        proof {
            assert(want.take(i + 1) =~= want.take(i as int).push(want[i as int]));
        }
        i = i + 1;
    }
    proof {
        assert(want.take(i as int) =~= want);
    }
    r
}

/// The text of an example.
pub fn example_to_text(ex: &Example) -> (r: String)
    ensures
        r@ == example_text(ex@),
{
    let lines = push_lines(&ex.inputs());
    join(&lines, " | ")
}

// ---------------------------------------------------------------------------
// The choice by score
// ---------------------------------------------------------------------------

/// Positions in order of their scores with one put in, after those with scores as
/// high.
pub open spec fn ranked_with(order: Seq<int>, scores: Seq<i64>, i: int) -> Seq<int>
    decreases order.len(),
{
    if order.len() == 0 || scores[order.last()] >= scores[i] {
        order.push(i)
    } else {
        ranked_with(order.drop_last(), scores, i).push(order.last())
    }
}

/// The first `n` positions, the highest scores first; positions with the same score
/// keep their order.
pub open spec fn ranked(scores: Seq<i64>, n: nat) -> Seq<int>
    decreases n,
{
    if n == 0 {
        Seq::empty()
    } else {
        ranked_with(ranked(scores, (n - 1) as nat), scores, n - 1)
    }
}

/// The positions of the `k` highest scores.
pub open spec fn highest(scores: Seq<i64>, k: nat) -> Seq<int> {
    let all = ranked(scores, scores.len());
    if k < all.len() {
        all.take(k as int)
    } else {
        all
    }
}

/// What positions say.
pub open spec fn positions(v: Seq<usize>) -> Seq<int> {
    v.map_values(|i: usize| i as int)
}

fn rank_in(order: &mut Vec<usize>, scores: &Vec<i64>, x: usize)
    requires
        x < scores@.len(),
        forall|j: int| 0 <= j < old(order)@.len() ==> (#[trigger] old(order)@[j]) < scores@.len(),
    ensures
        positions(final(order)@) == ranked_with(positions(old(order)@), scores@, x as int),
        forall|j: int|
            0 <= j < final(order)@.len() ==> (#[trigger] final(order)@[j]) < scores@.len(),
{
    let ghost all = positions(order@);
    let ghost was = order@;
    let mut n: usize = order.len();
    let ghost v = x as int;
    proof {
        assert(all.take(n as int) =~= all);
        assert(all.skip(n as int) =~= Seq::<int>::empty());
        assert(ranked_with(all, scores@, v) =~= ranked_with(all.take(n as int), scores@, v)
            + all.skip(n as int));
    }
    while n > 0 && scores[order[n - 1]] < scores[x]
        invariant
            n <= order@.len(),
            order@ == was,
            all == positions(was),
            v == x,
            x < scores@.len(),
            forall|j: int| 0 <= j < order@.len() ==> (#[trigger] order@[j]) < scores@.len(),
            ranked_with(all, scores@, v) == ranked_with(all.take(n as int), scores@, v) + all.skip(
                n as int,
            ),
        decreases n,
    {
        proof {
            let a = all.take(n as int);
            assert(a.last() == all[n - 1]);
            assert(a.drop_last() =~= all.take(n - 1));
            assert(ranked_with(all.take(n - 1), scores@, v).push(all[n - 1]) + all.skip(n as int)
                =~= ranked_with(all.take(n - 1), scores@, v) + all.skip(n - 1));
        }
        n = n - 1;
    }
    proof {
        let a = all.take(n as int);
        if n > 0 {
            assert(a.last() == all[n - 1]);
            assert(all[n - 1] == order@[n - 1]);
        }
        assert(ranked_with(a, scores@, v) == a.push(v));
        assert(a.push(v) + all.skip(n as int) =~= all.insert(n as int, v));
    }
    order.insert(n, x);
    proof {
        assert(positions(order@) =~= all.insert(n as int, v));
    }
}

/// The positions of the `k` highest scores, the highest first. The scores are order
/// keys.
pub fn top_k(scores: &Vec<i64>, k: usize) -> (r: Vec<usize>)
    ensures
        positions(r@) == highest(scores@, k as nat),
        forall|j: int| 0 <= j < r@.len() ==> (#[trigger] r@[j]) < scores@.len(),
{
    let mut order: Vec<usize> = Vec::new();
    let mut i: usize = 0;
    proof {
        assert(positions(order@) =~= Seq::<int>::empty());
    }
    while i < scores.len()
        invariant
            i <= scores.len(),
            positions(order@) == ranked(scores@, i as nat),
            forall|j: int| 0 <= j < order@.len() ==> (#[trigger] order@[j]) < scores@.len(),
        decreases scores.len() - i,
    {
        rank_in(&mut order, scores, i);
        i = i + 1;
    }
    let ghost all = order@;
    let mut r: Vec<usize> = Vec::new();
    let mut j: usize = 0;
    while j < order.len() && j < k
        invariant
            j <= order.len(),
            j <= k,
            order@ == all,
            r@ == all.take(j as int),
        decreases order.len() - j,
    {
        r.push(order[j]);
        proof {
            assert(all.take(j + 1) =~= all.take(j as int).push(all[j as int]));
        }
        j = j + 1;
    }
    proof {
        assert(positions(all) == ranked(scores@, scores@.len()));
        assert(positions(r@) =~= highest(scores@, k as nat));
        assert forall|x: int| 0 <= x < r@.len() implies (#[trigger] r@[x]) < scores@.len() by {
            assert(r@[x] == all[x]);
        }
    }
    r
}

/// One position does not come after another: its score is higher, or as high and
/// it stands before.
pub open spec fn ranks_before(scores: Seq<i64>, a: int, b: int) -> bool {
    scores[a] > scores[b] || (scores[a] == scores[b] && a < b)
}

proof fn lemma_ranked_with(order: Seq<int>, scores: Seq<i64>, x: int)
    requires
        forall|i: int| 0 <= i < order.len() ==> (#[trigger] order[i]) < x,
        forall|i: int, j: int|
            0 <= i < j < order.len() ==> ranks_before(scores, order[i], order[j]),
    ensures
        ranked_with(order, scores, x).len() == order.len() + 1,
        forall|i: int|
            0 <= i < order.len() + 1 ==> (#[trigger] ranked_with(order, scores, x)[i]) <= x,
        forall|i: int, j: int|
            0 <= i < j < order.len() + 1 ==> ranks_before(
                scores,
                ranked_with(order, scores, x)[i],
                ranked_with(order, scores, x)[j],
            ),
        forall|y: int| #[trigger]
            ranked_with(order, scores, x).contains(y) <==> (order.contains(y) || y == x),
    decreases order.len(),
{
    let r = ranked_with(order, scores, x);
    if order.len() == 0 || scores[order.last()] >= scores[x] {
        assert(r == order.push(x));
        assert forall|i: int, j: int| 0 <= i < j < r.len() implies ranks_before(
            scores,
            r[i],
            r[j],
        ) by {
            if j == order.len() && i < order.len() - 1 {
                assert(ranks_before(scores, order[i], order[order.len() - 1]));
            }
        }
        assert forall|y: int| #[trigger] r.contains(y) <==> (order.contains(y) || y == x) by {
            if order.contains(y) {
                let k = choose|k: int| 0 <= k < order.len() && order[k] == y;
                assert(r[k] == y);
            }
            assert(r[order.len() as int] == x);
        }
    } else {
        let front = order.drop_last();
        assert forall|i: int, j: int| 0 <= i < j < front.len() implies ranks_before(
            scores,
            front[i],
            front[j],
        ) by {
            assert(ranks_before(scores, order[i], order[j]));
        }
        lemma_ranked_with(front, scores, x);
        let f = ranked_with(front, scores, x);
        assert(r == f.push(order.last()));
        assert forall|i: int| 0 <= i < f.len() implies ranks_before(
            scores,
            #[trigger] f[i],
            order.last(),
        ) by {
            assert(f.contains(f[i]));
            if front.contains(f[i]) {
                let k = choose|k: int| 0 <= k < front.len() && front[k] == f[i];
                assert(ranks_before(scores, order[k], order[order.len() - 1]));
            }
        }
        assert forall|i: int, j: int| 0 <= i < j < r.len() implies ranks_before(
            scores,
            r[i],
            r[j],
        ) by {
            if j < f.len() {
                assert(ranks_before(scores, f[i], f[j]));
            } else {
                assert(ranks_before(scores, f[i], order.last()));
            }
        }
        assert forall|y: int| #[trigger] r.contains(y) <==> (order.contains(y) || y == x) by {
            if f.contains(y) {
                let k = choose|k: int| 0 <= k < f.len() && f[k] == y;
                assert(r[k] == y);
            }
            if front.contains(y) {
                let k = choose|k: int| 0 <= k < front.len() && front[k] == y;
                assert(order[k] == y);
            }
            if order.contains(y) {
                let k = choose|k: int| 0 <= k < order.len() && order[k] == y;
                if k < front.len() {
                    assert(front[k] == y);
                }
            }
            assert(r[f.len() as int] == order.last());
            assert(order[order.len() - 1] == order.last());
        }
    }
}

proof fn lemma_ranked(scores: Seq<i64>, n: nat)
    ensures
        ranked(scores, n).len() == n,
        forall|i: int| 0 <= i < n ==> (#[trigger] ranked(scores, n)[i]) < n,
        forall|i: int, j: int|
            0 <= i < j < n ==> ranks_before(scores, ranked(scores, n)[i], ranked(scores, n)[j]),
        forall|y: int| #[trigger] ranked(scores, n).contains(y) <==> 0 <= y < n,
    decreases n,
{
    if n > 0 {
        lemma_ranked(scores, (n - 1) as nat);
        lemma_ranked_with(ranked(scores, (n - 1) as nat), scores, n - 1);
    }
}

/// As many are chosen as there are and are asked for, each a position and none twice.
/// They come with the highest score first, and of two that score alike the one that
/// stands before. Nothing that was left out ranks before anything that was chosen.
pub proof fn law_the_highest_are_chosen(scores: Seq<i64>, k: nat)
    ensures
        highest(scores, k).len() == if k < scores.len() {
            k
        } else {
            scores.len()
        },
        highest(scores, k).no_duplicates(),
        forall|i: int|
            0 <= i < highest(scores, k).len() ==> 0 <= #[trigger] highest(scores, k)[i]
                < scores.len(),
        forall|i: int, j: int|
            0 <= i < j < highest(scores, k).len() ==> ranks_before(
                scores,
                highest(scores, k)[i],
                highest(scores, k)[j],
            ),
        forall|i: int, other: int|
            0 <= i < highest(scores, k).len() && 0 <= other < scores.len() && !highest(
                scores,
                k,
            ).contains(other) ==> #[trigger] ranks_before(scores, highest(scores, k)[i], other),
{
    let all = ranked(scores, scores.len());
    lemma_ranked(scores, scores.len());
    let h = highest(scores, k);
    assert forall|i: int| 0 <= i < h.len() implies 0 <= #[trigger] h[i] < scores.len() by {
        assert(h[i] == all[i]);
        assert(all.contains(all[i]));
    }
    assert forall|i: int, j: int| 0 <= i < j < h.len() implies ranks_before(
        scores,
        h[i],
        h[j],
    ) by {
        assert(ranks_before(scores, all[i], all[j]));
    }
    assert forall|i: int, j: int| 0 <= i < h.len() && 0 <= j < h.len() && i != j implies h[i]
        != h[j] by {
        if i < j {
            assert(ranks_before(scores, all[i], all[j]));
        } else {
            assert(ranks_before(scores, all[j], all[i]));
        }
    }
    assert forall|i: int, other: int|
        0 <= i < h.len() && 0 <= other < scores.len() && !h.contains(
            other,
        ) implies #[trigger] ranks_before(scores, h[i], other) by {
        assert(all.contains(other));
        let p = choose|p: int| 0 <= p < all.len() && all[p] == other;
        if p < h.len() {
            assert(h[p] == other);
        }
        assert(ranks_before(scores, all[i], all[p]));
    }
}

impl KNN {
    /// Looks for the `k` nearest among examples.
    pub fn new(k: usize, trainset: Vec<Example>) -> (r: Self)
        ensures
            r == (KNN { k, trainset }),
    {
        KNN { k, trainset }
    }

    /// The texts of the examples, which are to be embedded.
    pub fn trainset_texts(&self) -> (r: Vec<String>)
        ensures
            texts(r@) == example_list(self.trainset@).map_values(|e: ExampleSpec| example_text(e)),
    {
        let ghost want = example_list(self.trainset@).map_values(
            |e: ExampleSpec| example_text(e),
        );
        let mut r: Vec<String> = Vec::new();
        let mut i: usize = 0;
        proof {
            lemma_example_list(self.trainset@);
            assert(texts(r@) =~= want.take(0));
        }
        while i < self.trainset.len()
            invariant
                i <= self.trainset.len(),
                want.len() == self.trainset@.len(),
                forall|k: int|
                    0 <= k < self.trainset@.len() ==> #[trigger] want[k] == example_text(
                        self.trainset@[k]@,
                    ),
                texts(r@) == want.take(i as int),
            decreases self.trainset.len() - i,
        {
            push_text(&mut r, example_to_text(&self.trainset[i]));
            proof {
                assert(want.take(i + 1) =~= want.take(i as int).push(want[i as int]));
            }
            i = i + 1;
        }
        proof {
            assert(want.take(i as int) =~= want);
        }
        r
    }

    /// Whether a query has to be embedded: not where nothing can be found.
    pub fn needs_query(&self) -> (r: bool)
        ensures
            r == (self.trainset@.len() > 0 && self.k > 0),
    {
        self.trainset.len() > 0 && self.k > 0
    }

    /// The text of a query, which is to be embedded.
    pub fn query_text(&self, fields: &[(&str, &str)]) -> (r: String)
        ensures
            r@ == join_of(query_lines(fields@), " | "@),
    {
        let ghost want = query_lines(fields@);
        let mut lines: Vec<String> = Vec::new();
        let mut i: usize = 0;
        proof {
            assert(texts(lines@) =~= want.take(0));
        }
        while i < fields.len()
            invariant
                i <= fields.len(),
                want == query_lines(fields@),
                texts(lines@) == want.take(i as int),
            decreases fields.len() - i,
        {
            let (k, v) = fields[i];
            push_text(&mut lines, around(k, ": ", v));
            proof {
                assert(want.take(i + 1) =~= want.take(i as int).push(want[i as int]));
            }
            i = i + 1;
        }
        proof {
            assert(want.take(i as int) =~= want);
        }
        join(&lines, " | ")
    }

    /// The examples with the highest scores, the highest first. The scores are order
    /// keys, in the order of the examples.
    pub fn nearest(&self, scores: &Vec<i64>) -> (r: Vec<Example>)
        requires
            scores@.len() <= self.trainset@.len(),
        ensures
            example_list(r@) == highest(scores@, self.k as nat).map_values(
                |i: int| example_list(self.trainset@)[i],
            ),
    {
        let order = top_k(scores, self.k);
        let ghost all = example_list(self.trainset@);
        let ghost want = highest(scores@, self.k as nat).map_values(|i: int| all[i]);
        let mut r: Vec<Example> = Vec::new();
        let mut i: usize = 0;
        proof {
            lemma_example_list(self.trainset@);
            lemma_example_list(r@);
            assert(example_list(r@) =~= want.take(0));
        }
        while i < order.len()
            invariant
                i <= order.len(),
                positions(order@) == highest(scores@, self.k as nat),
                forall|j: int| 0 <= j < order@.len() ==> (#[trigger] order@[j]) < scores@.len(),
                scores@.len() <= self.trainset@.len(),
                want == highest(scores@, self.k as nat).map_values(|i: int| all[i]),
                all.len() == self.trainset@.len(),
                forall|k: int| 0 <= k < all.len() ==> #[trigger] all[k] == self.trainset@[k]@,
                example_list(r@) == want.take(i as int),
            decreases order.len() - i,
        {
            let ghost before = r@;
            proof {
                assert(order@[i as int] < scores@.len());
                assert(positions(order@)[i as int] == order@[i as int]);
            }
            r.push(self.trainset[order[i]].clone());
            proof {
                lemma_example_list(before);
                lemma_example_list(r@);
                assert(all[order@[i as int] as int] == self.trainset@[order@[i as int] as int]@);
                assert(want[i as int] == r@[i as int]@);
                assert(want.take(i + 1) =~= want.take(i as int).push(want[i as int]));
                assert(example_list(r@) =~= example_list(before).push(want[i as int]));
            }
            i = i + 1;
        }
        proof {
            assert(want.take(i as int) =~= want);
        }
        r
    }
}

} // verus!
