use vstd::prelude::*;

use crate::bit_matrix::BitMatrix;
use crate::shared_constants::CELL_COUNT;

verus! {

/// Failure of the grouping operation: more distinct nonzero masks, or more
/// indexes in one group, than the fixed cell count allows. This cannot occur
/// for a correctly sized display, so it signals a configuration bug; it is
/// reported rather than silently dropping cells.
#[derive(Clone, Copy, Debug, PartialEq, Eq, Structural)]
pub enum Error {
    BitsToIndexesNotEnoughSpace,
}

/// The grouped form of a display handed to the multiplexing layer: each
/// distinct nonzero segment mask, mapped to the cells that share it.
pub type BitsToIndexes = heapless::LinearMap<u8, heapless::Vec<usize, CELL_COUNT>, CELL_COUNT>;

#[verifier::external_type_specification]
#[verifier::external_body]
#[verifier::reject_recursive_types(T)]
pub struct ExHeaplessVec<T, const N: usize>(heapless::Vec<T, N>);

#[verifier::external_type_specification]
#[verifier::external_body]
#[verifier::reject_recursive_types(K)]
#[verifier::reject_recursive_types(V)]
pub struct ExHeaplessLinearMap<K, V, const N: usize>(heapless::LinearMap<K, V, N>);

/// The cell indexes a bounded index vector holds, in storage order.
pub uninterp spec fn index_list(v: heapless::Vec<usize, CELL_COUNT>) -> Seq<usize>;

/// The contents of a bounded group map: each stored mask, mapped to the
/// indexes of its stored vector.
pub uninterp spec fn group_map(m: BitsToIndexes) -> Map<u8, Seq<usize>>;

/// Relies on heapless::Vec::new: a fresh vector is empty.
#[verifier::external_body]
fn group_vec_new() -> (r: heapless::Vec<usize, CELL_COUNT>)
    ensures
        index_list(r) == Seq::<usize>::empty(),
{
    heapless::Vec::new()
}

/// Relies on heapless::Vec::push: appends the item while the vector is below
/// its fixed capacity; a full vector rejects the item and is unchanged.
#[verifier::external_body]
fn group_vec_push(v: &mut heapless::Vec<usize, CELL_COUNT>, index: usize) -> (r: Result<(), usize>)
    ensures
        index_list(*old(v)).len() < CELL_COUNT ==> r is Ok,
        r is Ok ==> index_list(*final(v)) == index_list(*old(v)).push(index),
        r is Err ==> index_list(*final(v)) == index_list(*old(v)),
{
    v.push(index)
}

/// The contents of a group map holding no group at all.
pub open spec fn empty_group_map() -> Map<u8, Seq<usize>> {
    Map::empty()
}

/// Relies on heapless::LinearMap::new: a fresh map is empty.
#[verifier::external_body]
fn group_map_new() -> (r: BitsToIndexes)
    ensures
        group_map(r) == empty_group_map(),
{
    heapless::LinearMap::new()
}

/// Relies on heapless::LinearMap::contains_key: whether the key is stored.
#[verifier::external_body]
fn group_map_contains(m: &BitsToIndexes, bits: u8) -> (r: bool)
    ensures
        r == group_map(*m).dom().contains(bits),
{
    m.contains_key(&bits)
}

/// Relies on heapless::LinearMap::insert: stores the pair when the key is
/// already present or the map is below its fixed capacity; a full map
/// rejects a new key and is unchanged.
#[verifier::external_body]
fn group_map_insert(
    m: &mut BitsToIndexes,
    bits: u8,
    indexes: heapless::Vec<usize, CELL_COUNT>,
) -> (r: Result<
    Option<heapless::Vec<usize, CELL_COUNT>>,
    (u8, heapless::Vec<usize, CELL_COUNT>),
>)
    ensures
        group_map(*old(m)).dom().contains(bits) || (group_map(*old(m)).dom().finite()
            && group_map(*old(m)).dom().len() < CELL_COUNT) ==> r is Ok,
        r is Ok ==> group_map(*final(m)) == group_map(*old(m)).insert(bits, index_list(indexes)),
        r is Err ==> group_map(*final(m)) == group_map(*old(m)),
{
    m.insert(bits, indexes)
}

/// The cells among `s[from..to]` holding exactly the mask `v`, as indexes in
/// ascending order.
pub open spec fn matching_indexes(s: Seq<u8>, v: u8, from: int, to: int) -> Seq<usize>
    decreases to - from,
{
    if to <= from {
        Seq::empty()
    } else if 0 <= to - 1 < s.len() && s[to - 1] == v {
        matching_indexes(s, v, from, to - 1).push((to - 1) as usize)
    } else {
        matching_indexes(s, v, from, to - 1)
    }
}

/// What grouping a display means: every distinct nonzero mask that occurs,
/// mapped to the ascending indexes of the cells holding it. Blank cells need
/// no drive cycle and appear in no group.
pub open spec fn grouping(s: Seq<u8>) -> Map<u8, Seq<usize>> {
    Map::new(
        |v: u8| v != 0 && (exists|k: int| 0 <= k < s.len() && s[k] == v),
        |v: u8| matching_indexes(s, v, 0, s.len() as int),
    )
}

/// A scan may start past a prefix free of the sought mask without changing
/// which indexes it finds.
proof fn lemma_matching_skip_prefix(s: Seq<u8>, v: u8, a: int, b: int, to: int)
    requires
        0 <= a <= b <= s.len(),
        forall|k: int| a <= k < b ==> s[k] != v,
    ensures
        matching_indexes(s, v, a, to) == matching_indexes(s, v, b, to),
    decreases to,
{
    if to <= a {
    } else if to <= b {
        lemma_matching_skip_prefix(s, v, a, b, to - 1);
        assert(matching_indexes(s, v, b, to) =~= Seq::<usize>::empty());
        if 0 <= to - 1 < s.len() && s[to - 1] == v {
            assert(false);
        }
    } else {
        lemma_matching_skip_prefix(s, v, a, b, to - 1);
    }
}

/// Every index a scan finds lies in the scanned range.
proof fn lemma_matching_in_range(s: Seq<u8>, v: u8, from: int, to: int)
    ensures
        matching_indexes(s, v, from, to).len() <= (if to >= from {
            to - from
        } else {
            0
        }),
    decreases to - from,
{
    if to > from {
        lemma_matching_in_range(s, v, from, to - 1);
    }
}

impl BitMatrix {
    /// Groups the display's cells by their segment mask, skipping blank
    /// cells. With the map and its vectors sized to the cell count the
    /// capacity error can never actually occur, and the result is exactly
    /// the grouping of the display's masks.
    pub fn bits_to_indexes(&self) -> (r: Result<BitsToIndexes, Error>)
        ensures
            r is Ok,
            group_map(r->Ok_0) == grouping(self@),
    {
        proof {
            self.lemma_cell_count();
        }
        let mut acc = group_map_new();
        let mut i: usize = 0;
        while i < CELL_COUNT
            invariant
                i <= CELL_COUNT,
                self@.len() == CELL_COUNT,
                group_map(acc).dom().finite(),
                group_map(acc).dom().len() <= i,
                forall|v: u8|
                    group_map(acc).dom().contains(v) <==> (v != 0 && (exists|k: int|
                        0 <= k < i && self@[k] == v)),
                forall|v: u8| #[trigger]
                    group_map(acc).dom().contains(v) ==> group_map(acc)[v] == matching_indexes(
                        self@,
                        v,
                        0,
                        CELL_COUNT as int,
                    ),
            decreases CELL_COUNT - i,
        {
            let bits = self.get(i);
            if bits != 0 && !group_map_contains(&acc, bits) {
                let mut vec = group_vec_new();
                let mut j: usize = i;
                while j < CELL_COUNT
                    invariant
                        i <= j <= CELL_COUNT,
                        self@.len() == CELL_COUNT,
                        index_list(vec) == matching_indexes(self@, bits, i as int, j as int),
                        index_list(vec).len() <= j - i,
                    decreases CELL_COUNT - j,
                {
                    if self.get(j) == bits {
                        let pushed = group_vec_push(&mut vec, j);
                        assert(pushed is Ok);
                    }
                    proof {
                        lemma_matching_in_range(self@, bits, i as int, j + 1);
                    }
                    j += 1;
                }
                proof {
                    assert(forall|k: int| 0 <= k < i ==> self@[k] != bits);
                    lemma_matching_skip_prefix(self@, bits, 0, i as int, CELL_COUNT as int);
                }
                let ghost acc0 = group_map(acc);
                let inserted = group_map_insert(&mut acc, bits, vec);
                match inserted {
                    Ok(_) => {},
                    Err(_) => {
                        return Err(Error::BitsToIndexesNotEnoughSpace);
                    },
                }
                proof {
                    vstd::set::axiom_set_insert_len(acc0.dom(), bits);
                }
            }
            i += 1;
        }
        proof {
            assert(group_map(acc) =~= grouping(self@));
        }
        Ok(acc)
    }
}

/// Law: a display whose cells all hold the same nonzero mask groups into
/// exactly one group, keyed by that mask and holding every cell index in
/// ascending order; an all-blank display groups into the empty map.
pub proof fn lemma_uniform_grouping(s: Seq<u8>, m: u8)
    requires
        s.len() == CELL_COUNT,
        forall|i: int| 0 <= i < CELL_COUNT ==> s[i] == m,
    ensures
        m != 0 ==> grouping(s) =~= Map::<u8, Seq<usize>>::empty().insert(
            m,
            seq![0usize, 1usize, 2usize, 3usize],
        ),
        m == 0 ==> grouping(s) =~= Map::<u8, Seq<usize>>::empty(),
{
    if m != 0 {
        assert(matching_indexes(s, m, 0, 0) =~= Seq::<usize>::empty());
        assert(matching_indexes(s, m, 0, 1) =~= seq![0usize]);
        assert(matching_indexes(s, m, 0, 2) =~= seq![0usize, 1usize]);
        assert(matching_indexes(s, m, 0, 3) =~= seq![0usize, 1usize, 2usize]);
        assert(matching_indexes(s, m, 0, 4) =~= seq![0usize, 1usize, 2usize, 3usize]);
        assert(s[0] == m);
    }
}

} // verus!
