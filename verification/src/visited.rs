//! The generations an engine has produced, each held once.
//!
//! The grids are kept in buckets by a hash of their rows and cells, so that
//! a grid is compared only with the few grids that share its hash.

use crate::grid::grid_view;
use std::collections::HashMap;
use vstd::prelude::*;

verus! {

/// Where a hash starts.
pub const HASH_SEED: u64 = 0xcbf2_9ce4_8422_2325;

/// What a hash is multiplied by with each value that goes into it.
pub const HASH_PRIME: u64 = 0x0100_0000_01b3;

/// `hash` after `value` has gone into it.
pub open spec fn mixed(hash: u64, value: u64) -> u64 {
    (hash ^ value).wrapping_mul(HASH_PRIME)
}

/// `hash` after the cells of `row` have gone into it, from the first to
/// the last.
pub open spec fn row_hash(hash: u64, row: Seq<bool>) -> u64
    decreases row.len(),
{
    if row.len() == 0 {
        hash
    } else {
        mixed(
            row_hash(hash, row.drop_last()),
            if row.last() {
                1
            } else {
                0
            },
        )
    }
}

/// `hash` after `rows` have gone into it, from the first to the last: of
/// each row its length, then its cells.
pub open spec fn rows_hash(hash: u64, rows: Seq<Seq<bool>>) -> u64
    decreases rows.len(),
{
    if rows.len() == 0 {
        hash
    } else {
        row_hash(
            mixed(rows_hash(hash, rows.drop_last()), rows.last().len() as u64),
            rows.last(),
        )
    }
}

/// The hash of a grid: of its number of rows, then of its rows. Equal
/// grids have equal hashes.
pub open spec fn grid_hash(grid: Seq<Seq<bool>>) -> u64 {
    rows_hash(mixed(HASH_SEED, grid.len() as u64), grid)
}

/// `hash` after `value` has gone into it.
fn mix(hash: u64, value: u64) -> (out: u64)
    ensures
        out == mixed(hash, value),
{
    (hash ^ value).wrapping_mul(HASH_PRIME)
}

/// The hash of `grid`.
pub fn hash_grid(grid: &Vec<Vec<bool>>) -> (hash: u64)
    ensures
        hash == grid_hash(grid_view(*grid)),
{
    let ghost rows = grid_view(*grid);
    let mut hash: u64 = mix(HASH_SEED, grid.len() as u64);
    let ghost seed = hash;
    let mut y: usize = 0;
    while y < grid.len()
        invariant
            y <= grid.len(),
            rows == grid_view(*grid),
            hash == rows_hash(seed, rows.take(y as int)),
        decreases grid.len() - y,
    {
        let row = &grid[y];
        assert(rows.take(y + 1).drop_last() =~= rows.take(y as int));
        hash = mix(hash, row.len() as u64);
        let ghost row_seed = hash;
        let mut x: usize = 0;
        while x < row.len()
            invariant
                x <= row.len(),
                hash == row_hash(row_seed, row@.take(x as int)),
            decreases row.len() - x,
        {
            assert(row@.take(x + 1).drop_last() =~= row@.take(x as int));
            hash = mix(
                hash,
                if row[x] {
                    1
                } else {
                    0
                },
            );
            x += 1;
        }
        assert(row@.take(row.len() as int) =~= row@);
        y += 1;
    }
    assert(rows.take(grid.len() as int) =~= rows);
    hash
}

/// Whether two rows hold the same cells.
fn same_row(a: &Vec<bool>, b: &Vec<bool>) -> (same: bool)
    ensures
        same == (a@ == b@),
{
    if a.len() != b.len() {
        return false;
    }
    let mut x: usize = 0;
    while x < a.len()
        invariant
            a.len() == b.len(),
            x <= a.len(),
            forall|j: int| 0 <= j < x ==> a@[j] == b@[j],
        decreases a.len() - x,
    {
        if a[x] != b[x] {
            return false;
        }
        x += 1;
    }
    assert(a@ =~= b@);
    true
}

/// Whether two grids are equal: the same number of rows, and the same cells
/// in each row.
pub fn same_grid(a: &Vec<Vec<bool>>, b: &Vec<Vec<bool>>) -> (same: bool)
    ensures
        same == (grid_view(*a) == grid_view(*b)),
{
    if a.len() != b.len() {
        assert(grid_view(*a).len() != grid_view(*b).len());
        return false;
    }
    let mut y: usize = 0;
    while y < a.len()
        invariant
            a.len() == b.len(),
            y <= a.len(),
            forall|j: int| 0 <= j < y ==> a@[j]@ == b@[j]@,
        decreases a.len() - y,
    {
        if !same_row(&a[y], &b[y]) {
            assert(grid_view(*a)[y as int] != grid_view(*b)[y as int]);
            return false;
        }
        y += 1;
    }
    assert(grid_view(*a) =~= grid_view(*b));
    true
}

/// The grids that `bucket` holds, in the order in which they came.
spec fn bucket_view(bucket: Vec<Vec<Vec<bool>>>) -> Seq<Seq<Seq<bool>>> {
    Seq::new(bucket.len() as nat, |i: int| grid_view(bucket[i]))
}

/// Whether `bucket` may stand under `key`: it holds no grid twice, and the
/// hash of each of its grids is `key`.
spec fn bucket_fits(key: u64, bucket: Vec<Vec<Vec<bool>>>) -> bool {
    &&& bucket_view(bucket).no_duplicates()
    &&& forall|i: int|
        0 <= i < bucket.len() ==> grid_hash(#[trigger] bucket_view(bucket)[i]) == key
}

/// Whether `bucket` holds `grid`.
fn bucket_holds(bucket: &Vec<Vec<Vec<bool>>>, grid: &Vec<Vec<bool>>) -> (found: bool)
    ensures
        found == bucket_view(*bucket).contains(grid_view(*grid)),
{
    let mut i: usize = 0;
    while i < bucket.len()
        invariant
            i <= bucket.len(),
            forall|j: int| 0 <= j < i ==> bucket_view(*bucket)[j] != grid_view(*grid),
        decreases bucket.len() - i,
    {
        if same_grid(&bucket[i], grid) {
            assert(bucket_view(*bucket)[i as int] == grid_view(*grid));
            return true;
        }
        i += 1;
    }
    false
}

/// A set of grids. Two grids with the same cells are one member.
pub struct VisitedStates {
    buckets: HashMap<u64, Vec<Vec<Vec<bool>>>>,
}

impl View for VisitedStates {
    type V = Set<Seq<Seq<bool>>>;

    closed spec fn view(&self) -> Set<Seq<Seq<bool>>> {
        Set::new(
            |grid: Seq<Seq<bool>>|
                self.buckets@.contains_key(grid_hash(grid)) && bucket_view(
                    self.buckets@[grid_hash(grid)],
                ).contains(grid),
        )
    }
}

impl VisitedStates {
    /// Each bucket stands under the hash of its grids and holds none of
    /// them twice.
    #[verifier::type_invariant]
    spec fn buckets_fit(&self) -> bool {
        forall|key: u64| #[trigger]
            self.buckets@.contains_key(key) ==> bucket_fits(key, self.buckets@[key])
    }

    /// The empty set.
    pub fn new() -> (visited: Self)
        ensures
            visited@ == Set::<Seq<Seq<bool>>>::empty(),
    {
        let visited = VisitedStates { buckets: HashMap::new() };
        assert(visited@ =~= Set::empty());
        visited
    }

    /// Whether `grid` is a member.
    pub fn contains(&self, grid: &Vec<Vec<bool>>) -> (found: bool)
        ensures
            found == self@.contains(grid_view(*grid)),
    {
        let hash: u64 = hash_grid(grid);
        match self.buckets.get(&hash) {
            Some(bucket) => bucket_holds(bucket, grid),
            None => false,
        }
    }

    /// Makes `grid` a member. Returns whether it was new to the set.
    pub fn insert(&mut self, grid: Vec<Vec<bool>>) -> (fresh: bool)
        ensures
            final(self)@ == old(self)@.insert(grid_view(grid)),
            fresh == !old(self)@.contains(grid_view(grid)),
    {
        proof {
            use_type_invariant(&*self);
        }
        let hash: u64 = hash_grid(&grid);
        // The buckets leave the set while one of them changes, and come
        // back when each of them fits again.
        let mut buckets: HashMap<u64, Vec<Vec<Vec<bool>>>> = HashMap::new();
        std::mem::swap(&mut self.buckets, &mut buckets);
        let ghost before = buckets@;

        let mut bucket = match buckets.remove(&hash) {
            Some(bucket) => bucket,
            None => Vec::new(),
        };
        let ghost held = bucket_view(bucket);
        let fresh: bool = !bucket_holds(&bucket, &grid);
        if fresh {
            bucket.push(grid);
            assert(bucket_view(bucket) =~= held.push(grid_view(grid)));
        }
        buckets.insert(hash, bucket);

        proof {
            let after = buckets@;
            assert(after =~= before.insert(hash, bucket));
            assert(bucket_fits(hash, bucket));
            assert forall|key: u64| #[trigger] after.contains_key(key) implies bucket_fits(
                key,
                after[key],
            ) by {
                if key != hash {
                    assert(before.contains_key(key));
                }
            }
        }
        std::mem::swap(&mut self.buckets, &mut buckets);
        proof {
            let added = grid_view(grid);
            assert(old(self).buckets@ == before);
            assert(self.buckets@ == before.insert(hash, bucket));
            assert(held == if before.contains_key(hash) {
                bucket_view(before[hash])
            } else {
                Seq::empty()
            });
            assert forall|other: Seq<Seq<bool>>|
                self@.contains(other) == old(self)@.insert(added).contains(other) by {
                if grid_hash(other) == hash {
                    assert(old(self)@.contains(other) == held.contains(other));
                    assert(self@.contains(other) == bucket_view(bucket).contains(other));
                    if fresh {
                        vstd::seq_lib::lemma_seq_contains_after_push(held, added, other);
                    }
                } else {
                    assert(other != added);
                }
            }
            assert(self@ =~= old(self)@.insert(added));
        }
        fresh
    }
}

} // verus!
