//! The selection engine: given, per record, its voxel key or its
//! below-threshold flag, compute the ordered index sets to keep from each
//! input, under the voxel-density policy or the scale-threshold policy.

use vstd::prelude::*;
use vstd::seq_lib::lemma_seq_contains_after_push;

verus! {

/// A voxel key: the per-axis floor of a position divided by the voxel size.
pub type VoxelKey = (i32, i32, i32);

/// Number of records among `keys` that fall in voxel `k`.
pub open spec fn density(keys: Seq<VoxelKey>, k: VoxelKey) -> int
    decreases keys.len(),
{
    if keys.len() == 0 {
        0
    } else {
        density(keys.drop_last(), k) + if keys.last() == k {
            1int
        } else {
            0int
        }
    }
}

pub proof fn lemma_density_push(s: Seq<VoxelKey>, x: VoxelKey, k: VoxelKey)
    ensures
        density(s.push(x), k) == density(s, k) + if x == k {
            1int
        } else {
            0int
        },
{
    assert(s.push(x).drop_last() =~= s);
}

pub proof fn lemma_density_bounds(s: Seq<VoxelKey>, k: VoxelKey)
    ensures
        0 <= density(s, k) <= s.len(),
    decreases s.len(),
{
    if s.len() > 0 {
        lemma_density_bounds(s.drop_last(), k);
    }
}

/// A record of the first input is kept iff its voxel is at least as dense
/// there as in the second input (ties favour the first input).
pub open spec fn keep_from_first(keys1: Seq<VoxelKey>, keys2: Seq<VoxelKey>, i: int) -> bool {
    density(keys1, keys1[i]) >= density(keys2, keys1[i])
}

/// A record of the second input is kept iff its voxel is strictly denser
/// there than in the first input.
pub open spec fn keep_from_second(keys1: Seq<VoxelKey>, keys2: Seq<VoxelKey>, j: int) -> bool {
    density(keys2, keys2[j]) > density(keys1, keys2[j])
}

/// Indices `< n` of the first input kept under the voxel policy, in order.
pub open spec fn kept_first(keys1: Seq<VoxelKey>, keys2: Seq<VoxelKey>, n: int) -> Seq<usize>
    decreases n,
{
    if n <= 0 {
        Seq::empty()
    } else if keep_from_first(keys1, keys2, n - 1) {
        kept_first(keys1, keys2, n - 1).push((n - 1) as usize)
    } else {
        kept_first(keys1, keys2, n - 1)
    }
}

/// Indices `< n` of the second input kept under the voxel policy, in order.
pub open spec fn kept_second(keys1: Seq<VoxelKey>, keys2: Seq<VoxelKey>, n: int) -> Seq<usize>
    decreases n,
{
    if n <= 0 {
        Seq::empty()
    } else if keep_from_second(keys1, keys2, n - 1) {
        kept_second(keys1, keys2, n - 1).push((n - 1) as usize)
    } else {
        kept_second(keys1, keys2, n - 1)
    }
}

/// Indices `< n` with their flag set (scale below threshold), in order.
pub open spec fn kept_small(flags: Seq<bool>, n: int) -> Seq<usize>
    decreases n,
{
    if n <= 0 {
        Seq::empty()
    } else if flags[n - 1] {
        kept_small(flags, n - 1).push((n - 1) as usize)
    } else {
        kept_small(flags, n - 1)
    }
}

/// Indices `< n` with their flag clear (scale at or above threshold), in order.
pub open spec fn kept_large(flags: Seq<bool>, n: int) -> Seq<usize>
    decreases n,
{
    if n <= 0 {
        Seq::empty()
    } else if !flags[n - 1] {
        kept_large(flags, n - 1).push((n - 1) as usize)
    } else {
        kept_large(flags, n - 1)
    }
}

/// The first `n` record indices, in order: what a selection that keeps
/// everything returns.
pub open spec fn all_indices(n: int) -> Seq<usize> {
    Seq::new(n as nat, |i: int| i as usize)
}

/// What a density map holds: its voxel-key-to-count entries.
pub uninterp spec fn density_entries(m: DensityMap) -> Map<VoxelKey, usize>;

/// The entries of a map with nothing in it.
pub open spec fn no_entries() -> Map<VoxelKey, usize> {
    Map::empty()
}

/// Per-input mapping from voxel key to number of points in that voxel,
/// backed by a hash map.
#[verifier::external_body]
pub struct DensityMap {
    table: hashbrown::HashMap<VoxelKey, usize>,
}

impl DensityMap {
    /// Relies on hashbrown::HashMap::new: it creates an empty map.
    #[verifier::external_body]
    fn new() -> (r: DensityMap)
        ensures
            density_entries(r) == no_entries(),
    {
        DensityMap { table: hashbrown::HashMap::new() }
    }

    /// Relies on hashbrown::HashMap::get: the value stored under `k`, if any.
    #[verifier::external_body]
    fn get_count(&self, k: VoxelKey) -> (r: Option<usize>)
        ensures
            r == if density_entries(*self).dom().contains(k) {
                Some(density_entries(*self)[k])
            } else {
                None::<usize>
            },
    {
        self.table.get(&k).copied()
    }

    /// Relies on hashbrown::HashMap::insert: it maps `k` to `v` and leaves
    /// every other key's value unchanged.
    #[verifier::external_body]
    fn set_count(&mut self, k: VoxelKey, v: usize)
        ensures
            density_entries(*final(self)) == density_entries(*old(self)).insert(k, v),
    {
        self.table.insert(k, v);
    }

    /// The stored count under `k`, or zero when `k` is absent.
    fn count_or_zero(&self, k: VoxelKey) -> (r: usize)
        ensures
            r == if density_entries(*self).dom().contains(k) {
                density_entries(*self)[k]
            } else {
                0usize
            },
    {
        match self.get_count(k) {
            Some(c) => c,
            None => 0,
        }
    }
}

/// Build the density map of one input: count, per voxel key, the records
/// falling in it.
fn build_density(keys: &Vec<VoxelKey>) -> (m: DensityMap)
    ensures
        forall|k: VoxelKey| #![auto]
            density_entries(m).dom().contains(k) ==> density_entries(m)[k] as int == density(
                keys@,
                k,
            ),
        forall|k: VoxelKey| #![auto]
            !density_entries(m).dom().contains(k) ==> density(keys@, k) == 0,
{
    let n = keys.len();
    let mut m = DensityMap::new();
    let mut j: usize = 0;
    proof {
        assert(keys@.take(0) =~= Seq::<VoxelKey>::empty());
    }
    while j < n
        invariant
            j <= n,
            n == keys@.len(),
            forall|k: VoxelKey| #![auto]
                density_entries(m).dom().contains(k) ==> density_entries(m)[k] as int == density(
                    keys@.take(j as int),
                    k,
                ),
            forall|k: VoxelKey| #![auto]
                !density_entries(m).dom().contains(k) ==> density(keys@.take(j as int), k) == 0,
        decreases n - j,
    {
        let k0 = keys[j];
        proof {
            lemma_density_bounds(keys@.take(j as int), k0);
            assert(keys@.take(j + 1).drop_last() =~= keys@.take(j as int));
            assert(keys@.take(j + 1) =~= keys@.take(j as int).push(keys@[j as int]));
        }
        let c = m.count_or_zero(k0);
        m.set_count(k0, c + 1);
        proof {
            assert forall|k: VoxelKey| #![auto] density_entries(m).dom().contains(k) implies
                density_entries(m)[k] as int == density(keys@.take(j + 1), k) by {
                lemma_density_push(keys@.take(j as int), keys@[j as int], k);
            }
            assert forall|k: VoxelKey| #![auto] !density_entries(m).dom().contains(k) implies
                density(keys@.take(j + 1), k) == 0 by {
                lemma_density_push(keys@.take(j as int), keys@[j as int], k);
            }
        }
        j = j + 1;
    }
    proof {
        assert(keys@.take(n as int) =~= keys@);
    }
    m
}

/// Voxel-density selection: keep a record of the first input iff its voxel
/// is at least as dense in the first input as in the second, and a record of
/// the second input iff its voxel is strictly denser in the second. An
/// absent input is an empty key sequence.
pub fn select_voxel(keys1: &Vec<VoxelKey>, keys2: &Vec<VoxelKey>) -> (r: (Vec<usize>, Vec<usize>))
    ensures
        r.0@ == kept_first(keys1@, keys2@, keys1@.len() as int),
        r.1@ == kept_second(keys1@, keys2@, keys2@.len() as int),
{
    let dens1 = build_density(keys1);
    let dens2 = build_density(keys2);
    let n1 = keys1.len();
    let n2 = keys2.len();
    let mut kept1: Vec<usize> = Vec::new();
    let mut i: usize = 0;
    while i < n1
        invariant
            i <= n1,
            n1 == keys1@.len(),
            kept1@ == kept_first(keys1@, keys2@, i as int),
            forall|k: VoxelKey| #![auto]
                density_entries(dens1).dom().contains(k) ==> density_entries(dens1)[k] as int
                    == density(keys1@, k),
            forall|k: VoxelKey| #![auto]
                !density_entries(dens1).dom().contains(k) ==> density(keys1@, k) == 0,
            forall|k: VoxelKey| #![auto]
                density_entries(dens2).dom().contains(k) ==> density_entries(dens2)[k] as int
                    == density(keys2@, k),
            forall|k: VoxelKey| #![auto]
                !density_entries(dens2).dom().contains(k) ==> density(keys2@, k) == 0,
        decreases n1 - i,
    {
        let k0 = keys1[i];
        let c1 = dens1.count_or_zero(k0);
        let c2 = dens2.count_or_zero(k0);
        proof {
            lemma_density_bounds(keys1@, k0);
            lemma_density_bounds(keys2@, k0);
        }
        if c1 >= c2 {
            kept1.push(i);
        }
        proof {
            assert(kept1@ == kept_first(keys1@, keys2@, i + 1));
        }
        i = i + 1;
    }
    let mut kept2: Vec<usize> = Vec::new();
    let mut j: usize = 0;
    while j < n2
        invariant
            j <= n2,
            n2 == keys2@.len(),
            kept2@ == kept_second(keys1@, keys2@, j as int),
            forall|k: VoxelKey| #![auto]
                density_entries(dens1).dom().contains(k) ==> density_entries(dens1)[k] as int
                    == density(keys1@, k),
            forall|k: VoxelKey| #![auto]
                !density_entries(dens1).dom().contains(k) ==> density(keys1@, k) == 0,
            forall|k: VoxelKey| #![auto]
                density_entries(dens2).dom().contains(k) ==> density_entries(dens2)[k] as int
                    == density(keys2@, k),
            forall|k: VoxelKey| #![auto]
                !density_entries(dens2).dom().contains(k) ==> density(keys2@, k) == 0,
        decreases n2 - j,
    {
        let k0 = keys2[j];
        let c1 = dens1.count_or_zero(k0);
        let c2 = dens2.count_or_zero(k0);
        proof {
            lemma_density_bounds(keys1@, k0);
            lemma_density_bounds(keys2@, k0);
        }
        if c2 > c1 {
            kept2.push(j);
        }
        proof {
            assert(kept2@ == kept_second(keys1@, keys2@, j + 1));
        }
        j = j + 1;
    }
    (kept1, kept2)
}

/// Scale-threshold selection: keep a record of the first input iff its flag
/// is set (scale magnitude below the threshold), and a record of the second
/// input iff its flag is clear (scale magnitude at or above the threshold).
pub fn select_scale(small1: &Vec<bool>, small2: &Vec<bool>) -> (r: (Vec<usize>, Vec<usize>))
    ensures
        r.0@ == kept_small(small1@, small1@.len() as int),
        r.1@ == kept_large(small2@, small2@.len() as int),
{
    let n1 = small1.len();
    let n2 = small2.len();
    let mut kept1: Vec<usize> = Vec::new();
    let mut i: usize = 0;
    while i < n1
        invariant
            i <= n1,
            n1 == small1@.len(),
            kept1@ == kept_small(small1@, i as int),
        decreases n1 - i,
    {
        if small1[i] {
            kept1.push(i);
        }
        proof {
            assert(kept1@ == kept_small(small1@, i + 1));
        }
        i = i + 1;
    }
    let mut kept2: Vec<usize> = Vec::new();
    let mut j: usize = 0;
    while j < n2
        invariant
            j <= n2,
            n2 == small2@.len(),
            kept2@ == kept_large(small2@, j as int),
        decreases n2 - j,
    {
        if !small2[j] {
            kept2.push(j);
        }
        proof {
            assert(kept2@ == kept_large(small2@, j + 1));
        }
        j = j + 1;
    }
    (kept1, kept2)
}

/// Absence degeneracy: with the second input absent, the voxel policy keeps
/// every record of the first input, in original order.
pub proof fn lemma_absent_second_keeps_all(keys1: Seq<VoxelKey>, n: int)
    requires
        0 <= n <= keys1.len(),
    ensures
        kept_first(keys1, Seq::empty(), n) == all_indices(n),
    decreases n,
{
    if n == 0 {
        assert(kept_first(keys1, Seq::empty(), 0) =~= all_indices(0));
    } else {
        lemma_absent_second_keeps_all(keys1, n - 1);
        lemma_density_bounds(keys1, keys1[n - 1]);
        assert(density(Seq::empty(), keys1[n - 1]) == 0);
        assert(keep_from_first(keys1, Seq::empty(), n - 1));
        assert(all_indices(n - 1).push((n - 1) as usize) =~= all_indices(n));
    }
}

/// Voxel exclusivity: records of the two inputs that fall in the same voxel
/// are never both kept.
pub proof fn lemma_voxel_exclusive(keys1: Seq<VoxelKey>, keys2: Seq<VoxelKey>, i: int, j: int)
    requires
        0 <= i < keys1.len(),
        0 <= j < keys2.len(),
        keys1[i] == keys2[j],
    ensures
        !(keep_from_first(keys1, keys2, i) && keep_from_second(keys1, keys2, j)),
{
}

proof fn lemma_density_pos_witness(s: Seq<VoxelKey>, k: VoxelKey)
    requires
        density(s, k) > 0,
    ensures
        exists|i: int| 0 <= i < s.len() && s[i] == k,
    decreases s.len(),
{
    if s.last() == k {
        assert(s[s.len() - 1] == k);
    } else {
        lemma_density_pos_witness(s.drop_last(), k);
        let i = choose|i: int| 0 <= i < s.drop_last().len() && s.drop_last()[i] == k;
        assert(s[i] == k);
    }
}

/// A voxel with any points at all keeps points from exactly one input:
/// whichever of the two is denser there, with ties going to the first.
pub proof fn lemma_voxel_coverage(keys1: Seq<VoxelKey>, keys2: Seq<VoxelKey>, k: VoxelKey)
    requires
        density(keys1, k) > 0 || density(keys2, k) > 0,
    ensures
        density(keys1, k) >= density(keys2, k) ==> exists|i: int|
            0 <= i < keys1.len() && keys1[i] == k && keep_from_first(keys1, keys2, i),
        density(keys1, k) < density(keys2, k) ==> exists|j: int|
            0 <= j < keys2.len() && keys2[j] == k && keep_from_second(keys1, keys2, j),
{
    if density(keys1, k) >= density(keys2, k) {
        lemma_density_pos_witness(keys1, k);
        let i = choose|i: int| 0 <= i < keys1.len() && keys1[i] == k;
        assert(keep_from_first(keys1, keys2, i));
    } else {
        lemma_density_pos_witness(keys2, k);
        let j = choose|j: int| 0 <= j < keys2.len() && keys2[j] == k;
        assert(keep_from_second(keys1, keys2, j));
    }
}

/// The kept indices of the first input are exactly those whose voxel the
/// first input wins, in strictly increasing (original) order.
pub proof fn lemma_kept_first_membership(keys1: Seq<VoxelKey>, keys2: Seq<VoxelKey>, n: int)
    requires
        0 <= n <= keys1.len(),
        n <= usize::MAX,
    ensures
        forall|t: usize| #![trigger kept_first(keys1, keys2, n).contains(t)]
            kept_first(keys1, keys2, n).contains(t) <==> (t < n && keep_from_first(
                keys1,
                keys2,
                t as int,
            )),
        forall|a: int, b: int|
            0 <= a < b < kept_first(keys1, keys2, n).len() ==> kept_first(keys1, keys2, n)[a]
                < kept_first(keys1, keys2, n)[b],
    decreases n,
{
    if n > 0 {
        lemma_kept_first_membership(keys1, keys2, n - 1);
        let p = kept_first(keys1, keys2, n - 1);
        let q = kept_first(keys1, keys2, n);
        if keep_from_first(keys1, keys2, n - 1) {
            let v = (n - 1) as usize;
            assert(q == p.push(v));
            assert forall|t: usize| #![trigger q.contains(t)]
                q.contains(t) <==> (t < n && keep_from_first(keys1, keys2, t as int)) by {
                lemma_seq_contains_after_push(p, v, t);
                assert(p.contains(t) <==> (t < n - 1 && keep_from_first(keys1, keys2, t as int)));
            }
            assert forall|a: int, b: int| 0 <= a < b < q.len() implies q[a] < q[b] by {
                if b == q.len() - 1 {
                    assert(p.contains(p[a]));
                } else {
                    assert(q[a] == p[a] && q[b] == p[b]);
                }
            }
        } else {
            assert(q == p);
            assert forall|t: usize| #![trigger q.contains(t)]
                q.contains(t) <==> (t < n && keep_from_first(keys1, keys2, t as int)) by {
                assert(q.contains(t) == p.contains(t));
                assert(p.contains(t) <==> (t < n - 1 && keep_from_first(keys1, keys2, t as int)));
            }
            assert forall|a: int, b: int| 0 <= a < b < q.len() implies q[a] < q[b] by {
                assert(q[a] == p[a] && q[b] == p[b]);
            }
        }
    }
}

/// The kept indices of the second input are exactly those whose voxel the
/// second input wins, in strictly increasing (original) order.
pub proof fn lemma_kept_second_membership(keys1: Seq<VoxelKey>, keys2: Seq<VoxelKey>, n: int)
    requires
        0 <= n <= keys2.len(),
        n <= usize::MAX,
    ensures
        forall|t: usize| #![trigger kept_second(keys1, keys2, n).contains(t)]
            kept_second(keys1, keys2, n).contains(t) <==> (t < n && keep_from_second(
                keys1,
                keys2,
                t as int,
            )),
        forall|a: int, b: int|
            0 <= a < b < kept_second(keys1, keys2, n).len() ==> kept_second(keys1, keys2, n)[a]
                < kept_second(keys1, keys2, n)[b],
    decreases n,
{
    if n > 0 {
        lemma_kept_second_membership(keys1, keys2, n - 1);
        let p = kept_second(keys1, keys2, n - 1);
        let q = kept_second(keys1, keys2, n);
        if keep_from_second(keys1, keys2, n - 1) {
            let v = (n - 1) as usize;
            assert(q == p.push(v));
            assert forall|t: usize| #![trigger q.contains(t)]
                q.contains(t) <==> (t < n && keep_from_second(keys1, keys2, t as int)) by {
                lemma_seq_contains_after_push(p, v, t);
                assert(p.contains(t) <==> (t < n - 1 && keep_from_second(keys1, keys2, t as int)));
            }
            assert forall|a: int, b: int| 0 <= a < b < q.len() implies q[a] < q[b] by {
                if b == q.len() - 1 {
                    assert(p.contains(p[a]));
                } else {
                    assert(q[a] == p[a] && q[b] == p[b]);
                }
            }
        } else {
            assert(q == p);
            assert forall|t: usize| #![trigger q.contains(t)]
                q.contains(t) <==> (t < n && keep_from_second(keys1, keys2, t as int)) by {
                assert(q.contains(t) == p.contains(t));
                assert(p.contains(t) <==> (t < n - 1 && keep_from_second(keys1, keys2, t as int)));
            }
            assert forall|a: int, b: int| 0 <= a < b < q.len() implies q[a] < q[b] by {
                assert(q[a] == p[a] && q[b] == p[b]);
            }
        }
    }
}

/// Voxel exclusivity over the selected sequences themselves: two records of
/// the two inputs that share a voxel are never both selected.
pub proof fn lemma_selected_exclusive(keys1: Seq<VoxelKey>, keys2: Seq<VoxelKey>, i: usize, j: usize)
    requires
        keys1.len() <= usize::MAX,
        keys2.len() <= usize::MAX,
        (i as int) < keys1.len(),
        (j as int) < keys2.len(),
        keys1[i as int] == keys2[j as int],
        kept_first(keys1, keys2, keys1.len() as int).contains(i),
    ensures
        !kept_second(keys1, keys2, keys2.len() as int).contains(j),
{
    lemma_kept_first_membership(keys1, keys2, keys1.len() as int);
    lemma_kept_second_membership(keys1, keys2, keys2.len() as int);
    lemma_voxel_exclusive(keys1, keys2, i as int, j as int);
}

/// Scale partition completeness: with the same flags on both sides, every
/// record is kept exactly once, so the two kept sets' sizes sum to the
/// record count.
pub proof fn lemma_scale_partition(flags: Seq<bool>, n: int)
    requires
        0 <= n <= flags.len(),
    ensures
        kept_small(flags, n).len() + kept_large(flags, n).len() == n,
    decreases n,
{
    if n > 0 {
        lemma_scale_partition(flags, n - 1);
    }
}

/// The indices kept as small are exactly those flagged below the threshold,
/// in strictly increasing (original) order.
pub proof fn lemma_kept_small_membership(flags: Seq<bool>, n: int)
    requires
        0 <= n <= flags.len(),
        n <= usize::MAX,
    ensures
        forall|t: usize| #![trigger kept_small(flags, n).contains(t)]
            kept_small(flags, n).contains(t) <==> (t < n && flags[t as int]),
        forall|a: int, b: int|
            0 <= a < b < kept_small(flags, n).len() ==> kept_small(flags, n)[a] < kept_small(
                flags,
                n,
            )[b],
    decreases n,
{
    if n > 0 {
        lemma_kept_small_membership(flags, n - 1);
        let p = kept_small(flags, n - 1);
        let q = kept_small(flags, n);
        if flags[n - 1] {
            let v = (n - 1) as usize;
            assert(q == p.push(v));
            assert forall|t: usize| #![trigger q.contains(t)]
                q.contains(t) <==> (t < n && flags[t as int]) by {
                lemma_seq_contains_after_push(p, v, t);
                assert(p.contains(t) <==> (t < n - 1 && flags[t as int]));
            }
            assert forall|a: int, b: int| 0 <= a < b < q.len() implies q[a] < q[b] by {
                if b == q.len() - 1 {
                    assert(p.contains(p[a]));
                } else {
                    assert(q[a] == p[a] && q[b] == p[b]);
                }
            }
        } else {
            assert(q == p);
            assert forall|t: usize| #![trigger q.contains(t)]
                q.contains(t) <==> (t < n && flags[t as int]) by {
                assert(q.contains(t) == p.contains(t));
                assert(p.contains(t) <==> (t < n - 1 && flags[t as int]));
            }
            assert forall|a: int, b: int| 0 <= a < b < q.len() implies q[a] < q[b] by {
                assert(q[a] == p[a] && q[b] == p[b]);
            }
        }
    }
}

/// The indices kept as large are exactly those flagged at or above the
/// threshold, in strictly increasing (original) order.
pub proof fn lemma_kept_large_membership(flags: Seq<bool>, n: int)
    requires
        0 <= n <= flags.len(),
        n <= usize::MAX,
    ensures
        forall|t: usize| #![trigger kept_large(flags, n).contains(t)]
            kept_large(flags, n).contains(t) <==> (t < n && !flags[t as int]),
        forall|a: int, b: int|
            0 <= a < b < kept_large(flags, n).len() ==> kept_large(flags, n)[a] < kept_large(
                flags,
                n,
            )[b],
    decreases n,
{
    if n > 0 {
        lemma_kept_large_membership(flags, n - 1);
        let p = kept_large(flags, n - 1);
        let q = kept_large(flags, n);
        if !flags[n - 1] {
            let v = (n - 1) as usize;
            assert(q == p.push(v));
            assert forall|t: usize| #![trigger q.contains(t)]
                q.contains(t) <==> (t < n && !flags[t as int]) by {
                lemma_seq_contains_after_push(p, v, t);
                assert(p.contains(t) <==> (t < n - 1 && !flags[t as int]));
            }
            assert forall|a: int, b: int| 0 <= a < b < q.len() implies q[a] < q[b] by {
                if b == q.len() - 1 {
                    assert(p.contains(p[a]));
                } else {
                    assert(q[a] == p[a] && q[b] == p[b]);
                }
            }
        } else {
            assert(q == p);
            assert forall|t: usize| #![trigger q.contains(t)]
                q.contains(t) <==> (t < n && !flags[t as int]) by {
                assert(q.contains(t) == p.contains(t));
                assert(p.contains(t) <==> (t < n - 1 && !flags[t as int]));
            }
            assert forall|a: int, b: int| 0 <= a < b < q.len() implies q[a] < q[b] by {
                assert(q[a] == p[a] && q[b] == p[b]);
            }
        }
    }
}

/// Scale partition exclusivity: with the same flags on both sides, each
/// record index is selected by exactly one of the two passes.
pub proof fn lemma_scale_exclusive(flags: Seq<bool>, t: usize)
    requires
        flags.len() <= usize::MAX,
        (t as int) < flags.len(),
    ensures
        kept_small(flags, flags.len() as int).contains(t) <==> !kept_large(
            flags,
            flags.len() as int,
        ).contains(t),
{
    lemma_kept_small_membership(flags, flags.len() as int);
    lemma_kept_large_membership(flags, flags.len() as int);
}

} // verus!
