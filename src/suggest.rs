//! Edit distance, and the nearest keyword to a misspelt word.
use vstd::prelude::*;
use crate::chars::{chars_of, string_of, text_of};

verus! {

pub open spec fn min2(x: nat, y: nat) -> nat {
    if x <= y {
        x
    } else {
        y
    }
}

/// Edit distance: the fewest insertions, deletions and substitutions of one
/// character each that turn `a` into `b`.
pub open spec fn edit_distance(a: Seq<char>, b: Seq<char>) -> nat
    decreases a.len() + b.len(),
{
    if a.len() == 0 {
        b.len()
    } else if b.len() == 0 {
        a.len()
    } else {
        let cost: nat = if a.last() == b.last() {
            0
        } else {
            1
        };
        min2(
            min2(
                edit_distance(a.drop_last(), b) + 1,
                edit_distance(a, b.drop_last()) + 1,
            ),
            edit_distance(a.drop_last(), b.drop_last()) + cost,
        )
    }
}

proof fn lemma_distance_bound(a: Seq<char>, b: Seq<char>)
    ensures
        edit_distance(a, b) <= if a.len() >= b.len() {
            a.len()
        } else {
            b.len()
        },
    decreases a.len() + b.len(),
{
    if a.len() > 0 && b.len() > 0 {
        lemma_distance_bound(a.drop_last(), b.drop_last());
    }
}

/// A text is at distance zero from itself.
pub proof fn lemma_distance_self(s: Seq<char>)
    ensures
        edit_distance(s, s) == 0,
    decreases s.len(),
{
    if s.len() > 0 {
        lemma_distance_self(s.drop_last());
    }
}

/// The distance from the empty text is the length of the other.
pub proof fn lemma_distance_from_empty(s: Seq<char>)
    ensures
        edit_distance(Seq::empty(), s) == s.len(),
{
}

/// Edit distance between `a` and `b`, counted in characters.
pub fn levenshtein(a: &str, b: &str) -> (r: usize)
    ensures
        r == edit_distance(a@, b@),
{
    let va = chars_of(a);
    let vb = chars_of(b);
    let la = va.len();
    let lb = vb.len();
    if la == 0 {
        return lb;
    }
    if lb == 0 {
        return la;
    }
    let ghost sa = va@;
    let ghost sb = vb@;
    // prev[j] is the distance between the first i characters of a and the first j of b
    let mut prev: Vec<usize> = Vec::new();
    let mut j: usize = 0;
    while j < lb
        invariant
            j <= lb,
            lb == sb.len(),
            prev@.len() == j,
            forall|k: int| 0 <= k < j ==> prev@[k] == edit_distance(sa.take(0), sb.take(k)),
        decreases lb - j,
    {
        prev.push(j);
        j = j + 1;
    }
    prev.push(lb);
    // after `done` rows, prev[j] is the distance between the first `done`
    // characters of a and the first j of b
    let mut done: usize = 0;
    while done < la
        invariant
            done <= la,
            la == sa.len(),
            lb == sb.len(),
            sa == va@,
            sb == vb@,
            prev@.len() == lb + 1,
            forall|k: int|
                0 <= k <= lb ==> prev@[k] == edit_distance(sa.take(done as int), sb.take(k)),
        decreases la - done,
    {
        let i: usize = done + 1;
        let mut cur: Vec<usize> = Vec::new();
        cur.push(i);
        proof {
            assert(sa.take(i as int).len() > 0);
            assert(sb.take(0).len() == 0);
        }
        let mut j0: usize = 0;
        while j0 < lb
            invariant
                1 <= i <= la,
                i == done + 1,
                j0 <= lb,
                la == sa.len(),
                lb == sb.len(),
                sa == va@,
                sb == vb@,
                prev@.len() == lb + 1,
                forall|k: int|
                    0 <= k <= lb ==> prev@[k] == edit_distance(sa.take(done as int), sb.take(k)),
                cur@.len() == j0 + 1,
                forall|k: int| 0 <= k <= j0 ==> cur@[k] == edit_distance(sa.take(i as int), sb.take(k)),
            decreases lb - j0,
        {
            let j: usize = j0 + 1;
            let cost: usize = if va[done] == vb[j0] {
                0
            } else {
                1
            };
            proof {
                lemma_distance_bound(sa.take(done as int), sb.take(j0 as int));
                let x = sa.take(i as int);
                let y = sb.take(j as int);
                assert(x.drop_last() =~= sa.take(done as int));
                assert(y.drop_last() =~= sb.take(j0 as int));
                assert(x.last() == va@[done as int]);
                assert(y.last() == vb@[j0 as int]);
            }
            let d = prev[j0] + cost;
            let m = if prev[j] <= cur[j0] {
                prev[j]
            } else {
                cur[j0]
            };
            let v = if m < d {
                m + 1
            } else {
                d
            };
            cur.push(v);
            j0 = j;
        }
        prev = cur;
        done = i;
    }
    proof {
        assert(sa.take(la as int) =~= sa);
        assert(sb.take(lb as int) =~= sb);
    }
    prev[lb]
}

/// Whether candidate `k` is the one to suggest for `input`: closer than three
/// edits, no other candidate closer, and none as close before it.
pub open spec fn best_candidate(input: Seq<char>, candidates: Seq<Seq<char>>, k: int) -> bool {
    &&& 0 <= k < candidates.len()
    &&& edit_distance(input, candidates[k]) < 3
    &&& forall|j: int|
        0 <= j < candidates.len() ==> edit_distance(input, #[trigger] candidates[j])
            >= edit_distance(input, candidates[k])
    &&& forall|j: int|
        0 <= j < k ==> edit_distance(input, #[trigger] candidates[j]) > edit_distance(
            input,
            candidates[k],
        )
}

/// The candidate to suggest for `input`, if one is close enough.
pub open spec fn suggestion(input: Seq<char>, candidates: Seq<Seq<char>>) -> Option<Seq<char>> {
    if exists|k: int| best_candidate(input, candidates, k) {
        Some(candidates[choose|k: int| best_candidate(input, candidates, k)])
    } else {
        None
    }
}

/// At most one candidate is the one to suggest.
pub proof fn lemma_best_unique(input: Seq<char>, candidates: Seq<Seq<char>>, k1: int, k2: int)
    requires
        best_candidate(input, candidates, k1),
        best_candidate(input, candidates, k2),
    ensures
        k1 == k2,
{
    if k1 < k2 {
        assert(edit_distance(input, candidates[k1]) > edit_distance(input, candidates[k2]));
    } else if k2 < k1 {
        assert(edit_distance(input, candidates[k2]) > edit_distance(input, candidates[k1]));
    }
}

pub open spec fn texts(candidates: Seq<&str>) -> Seq<Seq<char>> {
    candidates.map_values(|c: &str| c@)
}


/// The candidate nearest to `input` by edit distance, the first of the nearest,
/// provided it is fewer than three edits away.
pub fn get_suggestion(input: &str, candidates: &[&str]) -> (r: Option<String>)
    ensures
        text_of(r) == suggestion(input@, texts(candidates@)),
{
    let mut best: Option<usize> = None;
    let mut min_dist: usize = 3;
    let mut k: usize = 0;
    while k < candidates.len()
        invariant
            k <= candidates@.len(),
            min_dist <= 3,
            match best {
                Some(b) => b < k && min_dist < 3 && min_dist == edit_distance(input@, candidates@[b as int]@)
                    && forall|j: int|
                    0 <= j < b ==> edit_distance(input@, #[trigger] candidates@[j]@) > min_dist,
                None => min_dist == 3,
            },
            forall|j: int| 0 <= j < k ==> edit_distance(input@, #[trigger] candidates@[j]@) >= min_dist,
        decreases candidates@.len() - k,
    {
        let dist = levenshtein(input, candidates[k]);
        if dist < min_dist {
            min_dist = dist;
            best = Some(k);
        }
        k = k + 1;
    }
    let ghost cs = texts(candidates@);
    match best {
        Some(b) => {
            let w = chars_of(candidates[b]);
            let r = string_of(&w, 0, w.len());
            assert(w@.subrange(0, w@.len() as int) =~= w@);
            assert(best_candidate(input@, cs, b as int));
            proof {
                let c = choose|k: int| best_candidate(input@, cs, k);
                lemma_best_unique(input@, cs, c, b as int);
            }
            Some(r)
        },
        None => {
            assert forall|k: int| !best_candidate(input@, cs, k) by {
                if 0 <= k < cs.len() {
                    assert(cs[k] == candidates@[k]@);
                }
            }
            None
        },
    }
}

} // verus!
