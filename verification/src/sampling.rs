//! Drawing rows without repeats.
//!
//! A draw is made over the rows `0..accepted.len()` of which those marked
//! `true` are eligible. Each row carries a key; the rows drawn are the
//! eligible rows with the smallest keys, in key order. With keys drawn at
//! random this is a random sample in random order; with given keys it is a
//! function of its arguments, which is what the proofs here are about.
use vstd::prelude::*;
use vstd::set_lib::{lemma_int_range, lemma_len_subset, set_int_range};

verus! {

/// The rows that may be drawn.
pub open spec fn eligible(accepted: Seq<bool>) -> Set<int> {
    Set::new(|row: int| 0 <= row < accepted.len() && accepted[row])
}

/// The key of a row; rows past the end of `keys` have key 0.
pub open spec fn key_at(keys: Seq<u64>, row: int) -> u64 {
    if 0 <= row < keys.len() {
        keys[row]
    } else {
        0
    }
}

/// The order in which rows are drawn: by key, and by position among equal keys.
pub open spec fn precedes(keys: Seq<u64>, a: int, b: int) -> bool {
    key_at(keys, a) < key_at(keys, b) || (key_at(keys, a) == key_at(keys, b) && a < b)
}

/// `row` comes after the row `after`, or there is no such row.
pub open spec fn follows(keys: Seq<u64>, after: Option<int>, row: int) -> bool {
    match after {
        Some(last) => precedes(keys, last, row),
        None => true,
    }
}

/// `rows` holds eligible rows in drawing order, and every eligible row that
/// it lacks comes after all of them.
pub open spec fn is_prefix_of_draw(accepted: Seq<bool>, keys: Seq<u64>, rows: Seq<int>) -> bool {
    &&& forall|k: int| 0 <= k < rows.len() ==> eligible(accepted).contains(#[trigger] rows[k])
    &&& forall|a: int, b: int|
        0 <= a < b < rows.len() ==> precedes(keys, #[trigger] rows[a], #[trigger] rows[b])
    &&& forall|row: int, k: int|
        #![trigger eligible(accepted).contains(row), rows[k]]
        eligible(accepted).contains(row) && !rows.contains(row) && 0 <= k < rows.len()
            ==> precedes(keys, rows[k], row)
}

/// `rows` is the draw of at most `num` rows under `keys`: the first `num`
/// eligible rows in drawing order, or all of them where there are fewer.
pub open spec fn is_selection(accepted: Seq<bool>, keys: Seq<u64>, num: nat, rows: Seq<int>) -> bool {
    &&& is_prefix_of_draw(accepted, keys, rows)
    &&& rows.len() <= num
    &&& rows.len() < num ==> forall|row: int|
        eligible(accepted).contains(row) ==> rows.contains(row)
}

/// `rows` is some draw of at most `num` rows: eligible rows, none twice, as
/// many as asked for or as many as there are.
pub open spec fn is_draw(accepted: Seq<bool>, num: nat, rows: Seq<int>) -> bool {
    &&& rows.no_duplicates()
    &&& forall|k: int| 0 <= k < rows.len() ==> eligible(accepted).contains(#[trigger] rows[k])
    &&& rows.len() == if num <= eligible(accepted).len() {
        num
    } else {
        eligible(accepted).len()
    }
}

/// The eligible rows are finitely many, no more than there are rows.
pub proof fn lemma_eligible_finite(accepted: Seq<bool>)
    ensures
        eligible(accepted).finite(),
        eligible(accepted).len() <= accepted.len(),
{
    lemma_int_range(0, accepted.len() as int);
    assert(eligible(accepted).subset_of(set_int_range(0, accepted.len() as int)));
    lemma_len_subset(eligible(accepted), set_int_range(0, accepted.len() as int));
}

/// Whatever the keys, a selection is a draw: it repeats no row and has
/// `min(num, eligible rows)` rows.
pub proof fn lemma_selection_is_draw(accepted: Seq<bool>, keys: Seq<u64>, num: nat, rows: Seq<int>)
    requires
        is_selection(accepted, keys, num, rows),
    ensures
        is_draw(accepted, num, rows),
{
    lemma_eligible_finite(accepted);
    assert(rows.no_duplicates()) by {
        assert forall|a: int, b: int| 0 <= a < rows.len() && 0 <= b < rows.len() && a != b implies rows[a]
            != rows[b] by {
            if a < b {
                assert(precedes(keys, rows[a], rows[b]));
            } else {
                assert(precedes(keys, rows[b], rows[a]));
            }
        }
    }
    rows.unique_seq_to_set();
    assert(rows.to_set().subset_of(eligible(accepted))) by {
        assert forall|row: int| rows.to_set().contains(row) implies eligible(accepted).contains(
            row,
        ) by {
            let k = choose|k: int| 0 <= k < rows.len() && rows[k] == row;
            assert(eligible(accepted).contains(rows[k]));
        }
    }
    lemma_len_subset(rows.to_set(), eligible(accepted));
    if rows.len() < num {
        assert(rows.to_set() =~= eligible(accepted));
    }
}

/// Two prefixes of the draw that agree below `k` agree at `k`.
proof fn lemma_agree_at(accepted: Seq<bool>, keys: Seq<u64>, first: Seq<int>, second: Seq<int>, k: int)
    requires
        is_prefix_of_draw(accepted, keys, first),
        is_prefix_of_draw(accepted, keys, second),
        0 <= k < first.len(),
        k < second.len(),
        forall|i: int| 0 <= i < k ==> first[i] == second[i],
    ensures
        first[k] == second[k],
{
    lemma_not_skipped(accepted, keys, first, second, k);
    lemma_not_skipped(accepted, keys, second, first, k);
}

/// Where two prefixes of the draw agree below `k`, the row that one holds
/// at `k` does not come before the row that the other holds there.
proof fn lemma_not_skipped(accepted: Seq<bool>, keys: Seq<u64>, first: Seq<int>, second: Seq<int>, k: int)
    requires
        is_prefix_of_draw(accepted, keys, first),
        is_prefix_of_draw(accepted, keys, second),
        0 <= k < first.len(),
        k < second.len(),
        forall|i: int| 0 <= i < k ==> first[i] == second[i],
    ensures
        !precedes(keys, first[k], second[k]),
{
    let row = first[k];
    assert(eligible(accepted).contains(row));
    if precedes(keys, row, second[k]) {
        if second.contains(row) {
            let i = choose|i: int| 0 <= i < second.len() && second[i] == row;
            if i < k {
                assert(precedes(keys, first[i], first[k]));
            } else if i > k {
                assert(precedes(keys, second[k], second[i]));
            }
        } else {
            assert(precedes(keys, second[k], row));
        }
    }
}

/// Two prefixes of the draw agree as far as both reach.
proof fn lemma_agree_below(accepted: Seq<bool>, keys: Seq<u64>, first: Seq<int>, second: Seq<int>, k: int)
    requires
        is_prefix_of_draw(accepted, keys, first),
        is_prefix_of_draw(accepted, keys, second),
        0 <= k <= first.len(),
        k <= second.len(),
    ensures
        forall|i: int| 0 <= i < k ==> first[i] == second[i],
    decreases k,
{
    if k > 0 {
        lemma_agree_below(accepted, keys, first, second, k - 1);
        lemma_agree_at(accepted, keys, first, second, k - 1);
    }
}

/// Under given keys the draw is fixed: any two selections are the same rows
/// in the same order.
pub proof fn lemma_selection_unique(
    accepted: Seq<bool>,
    keys: Seq<u64>,
    num: nat,
    first: Seq<int>,
    second: Seq<int>,
)
    requires
        is_selection(accepted, keys, num, first),
        is_selection(accepted, keys, num, second),
    ensures
        first == second,
{
    lemma_selection_is_draw(accepted, keys, num, first);
    lemma_selection_is_draw(accepted, keys, num, second);
    lemma_agree_below(accepted, keys, first, second, first.len() as int);
    assert(first =~= second);
}

/// A position that may be absent, as an integer.
pub open spec fn position(row: Option<usize>) -> Option<int> {
    match row {
        Some(row) => Some(row as int),
        None => None,
    }
}

/// The rows of a vector of positions, as integers.
pub open spec fn positions(rows: Seq<usize>) -> Seq<int> {
    Seq::new(rows.len(), |k: int| rows[k] as int)
}

fn key_of(keys: &Vec<u64>, row: usize) -> (key: u64)
    ensures
        key == key_at(keys@, row as int),
{
    if row < keys.len() {
        keys[row]
    } else {
        0
    }
}

fn comes_before(keys: &Vec<u64>, a: usize, b: usize) -> (yes: bool)
    ensures
        yes == precedes(keys@, a as int, b as int),
{
    let key_a = key_of(keys, a);
    let key_b = key_of(keys, b);
    key_a < key_b || (key_a == key_b && a < b)
}

/// The first eligible row that comes after `after` in drawing order, if any.
fn next_row(accepted: &Vec<bool>, keys: &Vec<u64>, after: Option<usize>) -> (next: Option<usize>)
    ensures
        match next {
            Some(row) => {
                &&& eligible(accepted@).contains(row as int)
                &&& follows(keys@, position(after), row as int)
                &&& forall|other: int|
                    eligible(accepted@).contains(other) && follows(keys@, position(after), other)
                        && other != row ==> precedes(keys@, row as int, other)
            },
            None => forall|other: int|
                eligible(accepted@).contains(other) ==> !follows(keys@, position(after), other),
        },
{
    let ghost bound = position(after);
    let mut best: Option<usize> = None;
    let mut row: usize = 0;
    while row < accepted.len()
        invariant
            row <= accepted.len(),
            bound == position(after),
            match best {
                Some(b) => {
                    &&& b < row
                    &&& accepted@[b as int]
                    &&& follows(keys@, bound, b as int)
                    &&& forall|other: int|
                        0 <= other < row && accepted@[other] && follows(keys@, bound, other) && other
                            != b ==> precedes(keys@, b as int, other)
                },
                None => forall|other: int|
                    0 <= other < row && accepted@[other] ==> !follows(keys@, bound, other),
            },
        decreases accepted.len() - row,
    {
        if accepted[row] {
            let after_bound = match after {
                Some(last) => comes_before(keys, last, row),
                None => true,
            };
            if after_bound {
                let better = match best {
                    Some(b) => comes_before(keys, row, b),
                    None => true,
                };
                if better {
                    best = Some(row);
                }
            }
        }
        row += 1;
    }
    best
}

/// Draws at most `num` of the rows marked in `accepted`, in the order of
/// their keys.
pub fn select_rows(accepted: &Vec<bool>, keys: &Vec<u64>, num: u8) -> (rows: Vec<usize>)
    ensures
        is_selection(accepted@, keys@, num as nat, positions(rows@)),
{
    let mut rows: Vec<usize> = Vec::new();
    let mut last: Option<usize> = None;
    let mut taken: u8 = 0;
    let mut exhausted = false;
    while taken < num && !exhausted
        invariant
            taken <= num,
            rows@.len() == taken,
            is_prefix_of_draw(accepted@, keys@, positions(rows@)),
            match last {
                Some(row) => rows@.len() > 0 && rows@[rows@.len() - 1] == row,
                None => rows@.len() == 0,
            },
            exhausted ==> forall|row: int|
                eligible(accepted@).contains(row) ==> positions(rows@).contains(row),
        decreases (num - taken) + (if exhausted { 0int } else { 1int }),
    {
        let ghost before = positions(rows@);
        match next_row(accepted, keys, last) {
            Some(row) => {
                proof {
                    lemma_extend_prefix(accepted@, keys@, before, row as int);
                }
                rows.push(row);
                assert(positions(rows@) =~= before.push(row as int));
                last = Some(row);
                taken += 1;
            },
            None => {
                assert forall|row: int| eligible(accepted@).contains(row) implies before.contains(
                    row,
                ) by {
                    if !before.contains(row) && before.len() > 0 {
                        assert(precedes(keys@, before[before.len() - 1], row));
                    }
                }
                exhausted = true;
            },
        }
    }
    rows
}

/// Appending the first eligible row after the last one keeps a prefix of
/// the draw a prefix of the draw.
proof fn lemma_extend_prefix(accepted: Seq<bool>, keys: Seq<u64>, rows: Seq<int>, next: int)
    requires
        is_prefix_of_draw(accepted, keys, rows),
        eligible(accepted).contains(next),
        rows.len() > 0 ==> precedes(keys, rows[rows.len() - 1], next),
        forall|other: int|
            eligible(accepted).contains(other) && (rows.len() > 0 ==> precedes(
                keys,
                rows[rows.len() - 1],
                other,
            )) && other != next ==> precedes(keys, next, other),
    ensures
        is_prefix_of_draw(accepted, keys, rows.push(next)),
        !rows.contains(next),
{
    let extended = rows.push(next);
    let last = rows.len() - 1;
    assert(!rows.contains(next)) by {
        if rows.contains(next) {
            let k = choose|k: int| 0 <= k < rows.len() && rows[k] == next;
            if k < last {
                assert(precedes(keys, rows[k], rows[last]));
            }
        }
    }
    assert forall|k: int| 0 <= k < extended.len() implies eligible(accepted).contains(
        #[trigger] extended[k],
    ) by {
        if k < rows.len() {
            assert(extended[k] == rows[k]);
        }
    }
    assert forall|a: int, b: int| 0 <= a < b < extended.len() implies precedes(
        keys,
        #[trigger] extended[a],
        #[trigger] extended[b],
    ) by {
        assert(extended[a] == rows[a]);
        if b < rows.len() {
            assert(extended[b] == rows[b]);
        } else {
            assert(eligible(accepted).contains(next));
            assert(precedes(keys, rows[a], next));
        }
    }
    assert forall|row: int, k: int|
        #![trigger eligible(accepted).contains(row), extended[k]]
        eligible(accepted).contains(row) && !extended.contains(row) && 0 <= k
            < extended.len() implies precedes(keys, extended[k], row) by {
        assert(!rows.contains(row)) by {
            if rows.contains(row) {
                let j = choose|j: int| 0 <= j < rows.len() && rows[j] == row;
                assert(extended[j] == row);
            }
        }
        assert(row != next) by {
            assert(extended[rows.len() as int] == next);
        }
        if rows.len() > 0 {
            assert(precedes(keys, rows[last], row));
        }
        assert(precedes(keys, next, row));
        if k < rows.len() {
            assert(extended[k] == rows[k]);
            assert(precedes(keys, rows[k], row));
        }
    }
}

} // verus!
