//! Welding: giving everything that shares a grid cell one number, in first-seen order.

use std::collections::HashMap;
use vstd::prelude::*;

verus! {

broadcast use vstd::std_specs::hash::group_hash_axioms;

/// A cell of a grid in space.
#[derive(Clone, Copy, Debug, PartialEq, Eq, Structural)]
pub struct CellKey {
    /// The cell's place along the x axis.
    pub x: i64,
    /// The cell's place along the y axis.
    pub y: i64,
    /// The cell's place along the z axis.
    pub z: i64,
}

/// The distinct keys, in the order in which they first occur.
pub open spec fn first_seen<K>(keys: Seq<K>) -> Seq<K>
    decreases keys.len(),
{
    if keys.len() == 0 {
        Seq::empty()
    } else {
        let before = first_seen(keys.drop_last());
        if before.contains(keys.last()) {
            before
        } else {
            before.push(keys.last())
        }
    }
}

/// No key is listed twice among the distinct keys, and they are the keys that occur.
pub proof fn law_first_seen_lists_each_key_once<K>(keys: Seq<K>)
    ensures
        first_seen(keys).no_duplicates(),
        first_seen(keys).len() <= keys.len(),
        forall|k: K| #![trigger first_seen(keys).contains(k)]
            first_seen(keys).contains(k) <==> keys.contains(k),
    decreases keys.len(),
{
    if keys.len() > 0 {
        let rest = keys.drop_last();
        let before = first_seen(rest);
        law_first_seen_lists_each_key_once(rest);
        assert forall|k: K| #![trigger first_seen(keys).contains(k)]
            first_seen(keys).contains(k) <==> keys.contains(k) by {
            if keys.contains(k) {
                let i = choose|i: int| 0 <= i < keys.len() && keys[i] == k;
                if i < rest.len() {
                    assert(rest[i] == k);
                    assert(before.contains(k));
                    let j = choose|j: int| 0 <= j < before.len() && before[j] == k;
                    assert(first_seen(keys)[j] == k);
                } else if !before.contains(k) {
                    assert(first_seen(keys)[before.len() as int] == k);
                }
            }
            if first_seen(keys).contains(k) {
                let j = choose|j: int| 0 <= j < first_seen(keys).len() && first_seen(keys)[j] == k;
                if j < before.len() {
                    assert(before[j] == k);
                    assert(before.contains(k));
                    assert(rest.contains(k));
                    let i = choose|i: int| 0 <= i < rest.len() && rest[i] == k;
                    assert(keys[i] == k);
                } else {
                    assert(keys[keys.len() - 1] == k);
                }
            }
        }
    }
}

/// Hands out numbers to keys: a new key gets the next number, a known one the number it has.
struct Interner {
    map: HashMap<u128, u64>,
    order: Ghost<Seq<u128>>,
}

impl Interner {
    spec fn wf(&self) -> bool {
        &&& self.order@.no_duplicates()
        &&& self.map@.len() == self.order@.len()
        &&& forall|i: int|
            0 <= i < self.order@.len() ==> self.map@.contains_key(#[trigger] self.order@[i])
                && self.map@[self.order@[i]] == i
        &&& forall|k: u128| #[trigger]
            self.map@.contains_key(k) ==> self.map@[k] < self.order@.len()
                && self.order@[self.map@[k] as int] == k
    }

    fn new() -> (s: Interner)
        ensures
            s.wf(),
            s.order@ == Seq::<u128>::empty(),
    {
        let map: HashMap<u128, u64> = HashMap::new();
        assert(map@.dom() =~= Set::<u128>::empty());
        Interner { map, order: Ghost(Seq::empty()) }
    }

    fn intern(&mut self, key: u128) -> (n: u64)
        requires
            old(self).wf(),
        ensures
            final(self).wf(),
            final(self).order@ == if old(self).order@.contains(key) {
                old(self).order@
            } else {
                old(self).order@.push(key)
            },
            n < final(self).order@.len(),
            final(self).order@[n as int] == key,
            !old(self).order@.contains(key) ==> n == old(self).order@.len(),
    {
        let ghost before = self.order@;
        match self.map.get(&key) {
            Some(n) => {
                assert(before[*n as int] == key);
                *n
            },
            None => {
                proof {
                    if before.contains(key) {
                        let i = choose|i: int| 0 <= i < before.len() && before[i] == key;
                        assert(self.map@.contains_key(before[i]));
                    }
                }
                let n: u64 = self.map.len() as u64;
                self.map.insert(key, n);
                self.order = Ghost(before.push(key));
                assert forall|i: int| 0 <= i < self.order@.len() implies self.map@.contains_key(
                    #[trigger] self.order@[i],
                ) && self.map@[self.order@[i]] == i by {
                    if i < before.len() {
                        assert(self.order@[i] == before[i]);
                        assert(before.contains(before[i]));
                    }
                }
                n
            },
        }
    }
}

/// A number for each whole number of 64 bits, none shared.
spec fn unsigned(k: int) -> int {
    k + 0x8000_0000_0000_0000
}

fn shifted(k: i64) -> (n: u128)
    ensures
        n == unsigned(k as int),
        n < 0x1_0000_0000_0000_0000,
{
    (k as i128 + 0x8000_0000_0000_0000) as u128
}

/// Two numbers of 64 bits side by side.
spec fn paired(a: int, b: int) -> int {
    a * 0x1_0000_0000_0000_0000 + b
}

/// The result of welding a list of cells.
#[derive(Clone, Debug)]
pub struct Weld {
    /// For each entry of the list, the number of its cell.
    pub remap: Vec<u32>,
    /// For each cell, the first entry of the list that lies in it.
    pub firsts: Vec<usize>,
}

/// Whether `w` numbers the cells of `keys` in first-seen order.
pub open spec fn welds(keys: Seq<CellKey>, w: Weld) -> bool {
    let cells = first_seen(keys);
    &&& w.remap@.len() == keys.len()
    &&& w.firsts@.len() == cells.len()
    &&& forall|i: int|
        #![trigger w.remap@[i]]
        0 <= i < keys.len() ==> w.remap@[i] < cells.len() && cells[w.remap@[i] as int] == keys[i]
    &&& forall|c: int|
        #![trigger w.firsts@[c]]
        0 <= c < cells.len() ==> {
            &&& w.firsts@[c] < keys.len()
            &&& keys[w.firsts@[c] as int] == cells[c]
            &&& forall|i: int| 0 <= i < w.firsts@[c] ==> #[trigger] keys[i] != cells[c]
        }
}

/// Whether the numbers in `triples` stand for the cells in `cells`, given the numbers of the
/// pairs of coordinates.
spec fn stands_for(pairs: Seq<u128>, triples: Seq<u128>, cells: Seq<CellKey>) -> bool {
    &&& triples.len() == cells.len()
    &&& forall|c: int|
        #![trigger triples[c]]
        #![trigger cells[c]]
        0 <= c < cells.len() ==> exists|p: int|
            0 <= p < pairs.len() && #[trigger] pairs[p] == paired(
                unsigned(cells[c].x as int),
                unsigned(cells[c].y as int),
            ) && triples[c] == paired(p, unsigned(cells[c].z as int))
}

/// Two cells with the same number are the same cell.
proof fn lemma_number_is_unique(pairs: Seq<u128>, p: int, q: int, a: CellKey, b: CellKey)
    requires
        pairs.no_duplicates(),
        pairs.len() <= 0x1_0000_0000_0000_0000,
        0 <= p < pairs.len(),
        0 <= q < pairs.len(),
        pairs[p] == paired(unsigned(a.x as int), unsigned(a.y as int)),
        pairs[q] == paired(unsigned(b.x as int), unsigned(b.y as int)),
    ensures
        paired(p, unsigned(a.z as int)) == paired(q, unsigned(b.z as int)) <==> a == b,
{
    if a == b {
        assert(p == q);
    }
}

/// Gives every entry of `keys` the number of its cell, numbering the cells in first-seen order.
pub fn weld(keys: &[CellKey]) -> (w: Weld)
    requires
        keys@.len() <= u32::MAX,
    ensures
        welds(keys@, w),
{
    let mut pairs = Interner::new();
    let mut triples = Interner::new();
    let mut remap: Vec<u32> = Vec::with_capacity(keys.len());
    let mut firsts: Vec<usize> = Vec::new();
    let ghost all = keys@;
    let mut i: usize = 0;
    while i < keys.len()
        invariant
            all == keys@,
            keys@.len() <= u32::MAX,
            i <= keys.len(),
            pairs.wf(),
            triples.wf(),
            pairs.order@.len() <= i,
            stands_for(pairs.order@, triples.order@, first_seen(all.take(i as int))),
            welds(all.take(i as int), (Weld { remap, firsts })),
        decreases keys.len() - i,
    {
        let k = keys[i];
        let ghost done = all.take(i as int);
        let ghost next = all.take(i + 1);
        let ghost cells = first_seen(done);
        let ghost old_pairs = pairs.order@;
        let ghost old_triples = triples.order@;
        let ghost old_weld = Weld { remap, firsts };
        proof {
            assert(next.drop_last() =~= done);
            assert(next.last() == k);
            law_first_seen_lists_each_key_once(done);
            assert(cells.len() <= i);
        }
        let xy: u128 = shifted(k.x) * 0x1_0000_0000_0000_0000 + shifted(k.y);
        let p: u64 = pairs.intern(xy);
        assert(p as u128 * 0x1_0000_0000_0000_0000 <= 0xffff_ffff_ffff_ffff_u128
            * 0x1_0000_0000_0000_0000);
        let xyz: u128 = p as u128 * 0x1_0000_0000_0000_0000 + shifted(k.z);
        proof {
            // The number of this cell is known exactly where the cell is.
            assert(forall|q: int| 0 <= q < old_pairs.len() ==> pairs.order@[q] == old_pairs[q]);
            assert forall|c: int| 0 <= c < cells.len() implies (old_triples[c] == xyz <==> cells[c]
                == k) by {
                let q = choose|q: int|
                    0 <= q < old_pairs.len() && #[trigger] old_pairs[q] == paired(
                        unsigned(cells[c].x as int),
                        unsigned(cells[c].y as int),
                    ) && old_triples[c] == paired(q, unsigned(cells[c].z as int));
                assert(pairs.order@[q] == old_pairs[q]);
                lemma_number_is_unique(pairs.order@, q, p as int, cells[c], k);
            }
            if old_triples.contains(xyz) {
                let c = choose|c: int| 0 <= c < old_triples.len() && old_triples[c] == xyz;
                assert(cells[c] == k);
            }
            if cells.contains(k) {
                let c = choose|c: int| 0 <= c < cells.len() && cells[c] == k;
                assert(old_triples[c] == xyz);
            }
            assert(old_triples.contains(xyz) <==> cells.contains(k));
        }
        let n: u64 = triples.intern(xyz);
        proof {
            assert forall|c: int|
                #![trigger triples.order@[c]]
                #![trigger first_seen(next)[c]]
                0 <= c < first_seen(next).len() implies exists|q: int|
                0 <= q < pairs.order@.len() && #[trigger] pairs.order@[q] == paired(
                    unsigned(first_seen(next)[c].x as int),
                    unsigned(first_seen(next)[c].y as int),
                ) && triples.order@[c] == paired(q, unsigned(first_seen(next)[c].z as int)) by {
                if c < cells.len() {
                    let q = choose|q: int|
                        0 <= q < old_pairs.len() && #[trigger] old_pairs[q] == paired(
                            unsigned(cells[c].x as int),
                            unsigned(cells[c].y as int),
                        ) && old_triples[c] == paired(q, unsigned(cells[c].z as int));
                    assert(pairs.order@[q] == old_pairs[q]);
                } else {
                    assert(pairs.order@[p as int] == xy);
                }
            }
        }
        if n as usize == firsts.len() {
            firsts.push(i);
        }
        remap.push(n as u32);
        proof {
            let w = Weld { remap, firsts };
            assert(first_seen(next)[n as int] == k) by {
                if n < cells.len() {
                    assert(old_triples[n as int] == xyz);
                }
            }
            assert forall|j: int| #![trigger w.remap@[j]] 0 <= j < next.len() implies w.remap@[j]
                < first_seen(next).len() && first_seen(next)[w.remap@[j] as int] == next[j] by {
                if j < i {
                    assert(w.remap@[j] == old_weld.remap@[j]);
                    assert(done[j] == next[j]);
                }
            }
            assert forall|c: int| #![trigger w.firsts@[c]] 0 <= c < first_seen(next).len() implies {
                &&& w.firsts@[c] < next.len()
                &&& next[w.firsts@[c] as int] == first_seen(next)[c]
                &&& forall|j: int|
                    0 <= j < w.firsts@[c] ==> #[trigger] next[j] != first_seen(next)[c]
            } by {
                if c < cells.len() {
                    assert(w.firsts@[c] == old_weld.firsts@[c]);
                    assert(done[old_weld.firsts@[c] as int] == cells[c]);
                    assert forall|j: int| 0 <= j < w.firsts@[c] implies #[trigger] next[j]
                        != first_seen(next)[c] by {
                        assert(done[j] == next[j]);
                    }
                } else {
                    assert(!cells.contains(k));
                    assert forall|j: int| 0 <= j < i implies #[trigger] next[j] != k by {
                        assert(done[j] == next[j]);
                        assert(done.contains(done[j]));
                        assert(cells.contains(done[j]));
                    }
                }
            }
        }
        i = i + 1;
    }
    assert(all.take(i as int) =~= all);
    Weld { remap, firsts }
}

/// The number of each entry's cell, where the cells are numbered in first-seen order.
pub open spec fn cell_numbers(keys: Seq<CellKey>) -> Seq<u32> {
    Seq::new(keys.len(), |i: int| first_seen(keys).index_of(keys[i]) as u32)
}

/// The cells alone decide the numbers.
pub proof fn law_cells_decide_the_numbers(keys: Seq<CellKey>, w: Weld)
    requires
        welds(keys, w),
    ensures
        w.remap@ == cell_numbers(keys),
{
    let cells = first_seen(keys);
    law_first_seen_lists_each_key_once(keys);
    assert forall|i: int| 0 <= i < keys.len() implies #[trigger] w.remap@[i] == cell_numbers(keys)[i] by {
        let n = w.remap@[i] as int;
        assert(cells[n] == keys[i]);
        let m = cells.index_of(keys[i]);
        assert(0 <= m < cells.len() && cells[m] == keys[i]);
        assert(m == n);
    }
    assert(w.remap@ =~= cell_numbers(keys));
}

/// Two entries get the same number exactly where they lie in the same cell.
pub proof fn law_same_number_is_same_cell(keys: Seq<CellKey>, w: Weld, i: int, j: int)
    requires
        welds(keys, w),
        0 <= i < keys.len(),
        0 <= j < keys.len(),
    ensures
        w.remap@[i] == w.remap@[j] <==> keys[i] == keys[j],
{
    law_first_seen_lists_each_key_once(keys);
}

/// Where all entries lie in one cell, every entry gets the same number.
pub proof fn law_one_cell_has_one_number(keys: Seq<CellKey>, w: Weld, i: int)
    requires
        welds(keys, w),
        forall|a: int, b: int| 0 <= a < keys.len() && 0 <= b < keys.len() ==> keys[a] == keys[b],
        0 <= i < keys.len(),
    ensures
        w.remap@[i] == 0,
        first_seen(keys).len() == 1,
{
    let cells = first_seen(keys);
    law_first_seen_lists_each_key_once(keys);
    let n = w.remap@[i] as int;
    assert forall|c: int| 0 <= c < cells.len() implies #[trigger] cells[c] == cells[n] by {
        assert(keys[w.firsts@[c] as int] == cells[c]);
    }
    assert(cells[0] == cells[n]);
    if cells.len() > 1 {
        assert(cells[1] == cells[n]);
    }
}

/// A key that did not occur before is listed behind all that did.
pub proof fn law_new_keys_are_listed_last<K>(keys: Seq<K>, i: int, j: int, a: int, b: int)
    requires
        0 <= j < i < keys.len(),
        forall|k: int| 0 <= k < i ==> #[trigger] keys[k] != keys[i],
        0 <= a < first_seen(keys).len(),
        0 <= b < first_seen(keys).len(),
        first_seen(keys)[a] == keys[j],
        first_seen(keys)[b] == keys[i],
    ensures
        a < b,
    decreases keys.len(),
{
    let rest = keys.drop_last();
    let before = first_seen(rest);
    law_first_seen_lists_each_key_once(keys);
    law_first_seen_lists_each_key_once(rest);
    assert(rest[j] == keys[j]);
    assert(before.contains(keys[j]));
    let p = choose|p: int| 0 <= p < before.len() && before[p] == keys[j];
    assert(first_seen(keys)[p] == keys[j]);
    assert(p == a);
    if i == keys.len() - 1 {
        assert(!before.contains(keys[i])) by {
            if rest.contains(keys[i]) {
                let k = choose|k: int| 0 <= k < rest.len() && rest[k] == keys[i];
                assert(keys[k] == keys[i]);
            }
        }
        if b < before.len() {
            assert(before[b] == keys[i]);
        }
    } else {
        assert(rest[i] == keys[i]);
        assert(before.contains(keys[i]));
        let q = choose|q: int| 0 <= q < before.len() && before[q] == keys[i];
        assert(first_seen(keys)[q] == keys[i]);
        assert(q == b);
        assert forall|k: int| 0 <= k < i implies #[trigger] rest[k] != rest[i] by {
            assert(rest[k] == keys[k]);
        }
        law_new_keys_are_listed_last(rest, i, j, a, b);
    }
}

/// Cells are numbered in the order in which they first occur, from zero on: an entry of a new cell gets
/// a higher number than every entry before it, and every number has a first entry, which is the one
/// kept for it.
pub proof fn law_cells_are_numbered_in_order(keys: Seq<CellKey>, w: Weld, i: int, j: int)
    requires
        welds(keys, w),
        0 <= j < i < keys.len(),
    ensures
        w.remap@[0] == 0,
        (forall|k: int| 0 <= k < i ==> #[trigger] keys[k] != keys[i]) ==> w.remap@[j] < w.remap@[i],
        (forall|k: int| 0 <= k < i ==> #[trigger] keys[k] != keys[i]) ==> w.firsts@[w.remap@[i] as int]
            == i,
        w.firsts@[w.remap@[i] as int] <= i,
        keys[w.firsts@[w.remap@[i] as int] as int] == keys[i],
{
    let cells = first_seen(keys);
    law_first_seen_lists_each_key_once(keys);
    if forall|k: int| 0 <= k < i ==> #[trigger] keys[k] != keys[i] {
        law_new_keys_are_listed_last(keys, i, j, w.remap@[j] as int, w.remap@[i] as int);
    }
    let c = w.remap@[i] as int;
    assert(cells[c] == keys[i]);
    let f = w.firsts@[c] as int;
    assert(keys[f] == cells[c]);
    if f > i {
        assert(keys[i] != cells[c]);
    }
    lemma_first_key_is_listed_first(keys);
    let n = w.remap@[0] as int;
    assert(cells[n] == keys[0]);
}

proof fn lemma_first_key_is_listed_first<K>(keys: Seq<K>)
    requires
        keys.len() > 0,
    ensures
        first_seen(keys).len() > 0,
        first_seen(keys)[0] == keys[0],
    decreases keys.len(),
{
    if keys.len() == 1 {
        assert(first_seen(keys.drop_last()) =~= Seq::<K>::empty());
    } else {
        lemma_first_key_is_listed_first(keys.drop_last());
    }
}

} // verus!
