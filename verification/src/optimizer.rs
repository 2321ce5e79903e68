//! The dictionary optimizer: orders the dictionary's entries so that entries
//! whose replacement promises the most benefit receive the lowest (and thus
//! shortest) slot indices.

use vstd::prelude::*;
use vstd::string::StringSliceAdditionalSpecFns;

use crate::dictionary::{Dictionary, DictionaryEntry, DictionaryEntryStats, DictionaryError};

verus! {

/// The most a dictionary reference can save for one entry, in bytes.
///
/// A plain string or template quasi of encoded length `L`, occurring `count`
/// times, can save at most `(L - (identifier length + 3)) * count` bytes: the
/// shortest reference costs the identifier plus brackets and one digit. A
/// tagged template gets a deliberately small constant benefit, slightly
/// higher when it is used more than once: accurate accounting would push
/// almost every tagged template to the top of the dictionary and starve
/// other entries of low indices.
/// The byte length of a string's UTF-8 encoding, as it fits in memory.
pub open spec fn byte_len(s: Seq<char>) -> nat {
    (vstd::utf8::encode_utf8(s).len() as usize) as nat
}

pub open spec fn spec_benefit(entry: DictionaryEntry, ident_len: nat, count: nat) -> nat {
    match entry {
        DictionaryEntry::Str(s) => {
            let orig = byte_len(s@);
            if orig > ident_len + 3 {
                ((orig - (ident_len + 3)) * count) as nat
            } else {
                0
            }
        },
        DictionaryEntry::TaggedTemplate(_) => if count > 1 {
            2
        } else {
            1
        },
        DictionaryEntry::TemplateQuasi(q) => {
            let orig = byte_len(q@);
            if orig > ident_len + 3 {
                ((orig - (ident_len + 3)) * count) as nat
            } else {
                0
            }
        },
    }
}

impl DictionaryEntry {
    /// The most replacing this entry with a dictionary reference can save.
    pub fn max_dict_ref_benefit(&self, dictionary_identifier: &str, count: usize) -> (r: u128)
        ensures
            r == spec_benefit(*self, byte_len(dictionary_identifier@), count as nat),
    {
        let ident_len = dictionary_identifier.len();
        match self {
            DictionaryEntry::Str(s) => {
                let orig = s.as_str().len();
                if orig > ident_len && orig - ident_len > 3 {
                    let saved = (orig - (ident_len + 3)) as u128;
                    proof {
                        lemma_mul_fits(saved, count as u128);
                    }
                    saved * (count as u128)
                } else {
                    0
                }
            },
            DictionaryEntry::TaggedTemplate(_) => {
                if count > 1 {
                    2
                } else {
                    1
                }
            },
            DictionaryEntry::TemplateQuasi(q) => {
                let orig = q.as_str().len();
                if orig > ident_len && orig - ident_len > 3 {
                    let saved = (orig - (ident_len + 3)) as u128;
                    proof {
                        lemma_mul_fits(saved, count as u128);
                    }
                    saved * (count as u128)
                } else {
                    0
                }
            },
        }
    }
}

proof fn lemma_mul_fits(a: u128, b: u128)
    requires
        a < 0x10000000000000000,
        b < 0x10000000000000000,
    ensures
        a * b < 0x100000000000000000000000000000000,
{
    assert(a * b < 0x100000000000000000000000000000000) by (nonlinear_arith)
        requires
            a < 0x10000000000000000,
            b < 0x10000000000000000,
    ;
}

/// The order of dictionary slots: higher benefit first; among equal
/// benefits, the earlier insertion index first, so the result is
/// deterministic whatever order the entries were visited in.
pub open spec fn slot_le(benefits: Seq<nat>, a: usize, b: usize) -> bool {
    &&& a < benefits.len()
    &&& b < benefits.len()
    &&& (benefits[a as int] > benefits[b as int] || (benefits[a as int] == benefits[b as int] && a
        <= b))
}

/// A permutation of the dictionary: `indices` maps each final slot to the
/// original insertion index of the entry stored there, and each entry's
/// `dictionary_entry` statistic points back at its slot.
pub struct OptimizedDictionary {
    pub indices: Vec<usize>,
    pub strings: Dictionary,
}

/// What `OptimizedDictionary::build` guarantees, for the dictionary
/// identifier's byte length: the indices are a permutation of the insertion
/// indices, sorted by descending benefit with insertion order breaking ties,
/// and each entry's recorded slot is its position in that permutation.
pub open spec fn optimized_wf(od: OptimizedDictionary, ident_len: nat) -> bool {
    let n = od.strings.entries@.len();
    let benefits = Seq::new(
        n,
        |i: int|
            spec_benefit(od.strings.entries@[i].0, ident_len, od.strings.entries@[i].1.count as nat),
    );
    &&& od.strings.wf()
    &&& od.indices@.len() == n
    &&& forall|k: int| 0 <= k < n ==> (#[trigger] od.indices@[k]) < n
    &&& od.indices@.no_duplicates()
    &&& forall|a: int, b: int|
        0 <= a < b < n ==> slot_le(benefits, #[trigger] od.indices@[a], #[trigger] od.indices@[b])
    &&& forall|k: int|
        0 <= k < n ==> (#[trigger] od.strings.entries@[od.indices@[k] as int]).1.dictionary_entry
            == k
    &&& forall|x: usize| x < n ==> od.indices@.contains(x)
}

/// Benefit ordering: for two entries of an optimized dictionary, when one's
/// maximum benefit is strictly greater than the other's, its final slot
/// index is strictly lower.
pub proof fn lemma_benefit_ordering(od: OptimizedDictionary, ident_len: nat, i: int, j: int)
    requires
        optimized_wf(od, ident_len),
        0 <= i < od.strings.entries@.len(),
        0 <= j < od.strings.entries@.len(),
        spec_benefit(od.strings.entries@[i].0, ident_len, od.strings.entries@[i].1.count as nat)
            > spec_benefit(
            od.strings.entries@[j].0,
            ident_len,
            od.strings.entries@[j].1.count as nat,
        ),
    ensures
        od.strings.entries@[i].1.dictionary_entry < od.strings.entries@[j].1.dictionary_entry,
{
    let n = od.strings.entries@.len();
    let benefits = Seq::new(
        n,
        |k: int|
            spec_benefit(od.strings.entries@[k].0, ident_len, od.strings.entries@[k].1.count as nat),
    );
    // Each insertion index appears at exactly one slot, and its entry's
    // recorded slot points there.
    assert(od.indices@.contains(i as usize));
    assert(od.indices@.contains(j as usize));
    let a = choose|k: int| 0 <= k < od.indices@.len() && od.indices@[k] == i as usize;
    let b = choose|k: int| 0 <= k < od.indices@.len() && od.indices@[k] == j as usize;
    assert(od.strings.entries@[i].1.dictionary_entry == a);
    assert(od.strings.entries@[j].1.dictionary_entry == b);
    if a == b {
        assert(false);
    } else if a > b {
        assert(slot_le(benefits, od.indices@[b], od.indices@[a]));
        assert(benefits[j] >= benefits[i]);
        assert(false);
    }
}

impl OptimizedDictionary {
    /// Order the dictionary's entries by descending benefit (insertion order
    /// breaking ties), record each entry's final slot, and keep the
    /// permutation from slots back to insertion indices.
    pub fn build(dictionary_identifier: &String, strings: Dictionary) -> (r: OptimizedDictionary)
        requires
            strings.wf(),
        ensures
            optimized_wf(r, byte_len(dictionary_identifier@)),
            r.strings.entries@.len() == strings.entries@.len(),
            forall|k: int|
                0 <= k < strings.entries@.len() ==> {
                    &&& (#[trigger] r.strings.entries@[k]).0 == strings.entries@[k].0
                    &&& r.strings.entries@[k].1.count == strings.entries@[k].1.count
                    &&& r.strings.entries@[k].1.first_pos == strings.entries@[k].1.first_pos
                    &&& r.strings.entries@[k].1.index == strings.entries@[k].1.index
                },
    {
        let ghost ident_len = byte_len(dictionary_identifier@);
        let mut strings = strings;
        let n = strings.entries.len();
        // Compute each entry's benefit once, by insertion index.
        let mut benefits: Vec<u128> = Vec::new();
        let mut i: usize = 0;
        while i < n
            invariant
                ident_len == byte_len(dictionary_identifier@),
                n == strings.entries@.len(),
                0 <= i <= n,
                benefits@.len() == i,
                forall|k: int|
                    0 <= k < i ==> #[trigger] benefits@[k] == spec_benefit(
                        strings.entries@[k].0,
                        ident_len,
                        strings.entries@[k].1.count as nat,
                    ),
            decreases n - i,
        {
            let b = strings.entries[i].0.max_dict_ref_benefit(
                dictionary_identifier.as_str(),
                strings.entries[i].1.count,
            );
            benefits.push(b);
            i += 1;
        }
        let ghost bens = benefits@.map_values(|x: u128| x as nat);
        // Sort the insertion indices by benefit.
        let mut indices: Vec<usize> = Vec::new();
        let mut v: usize = 0;
        while v < n
            invariant
                n == strings.entries@.len(),
                bens == benefits@.map_values(|x: u128| x as nat),
                bens.len() == n,
                0 <= v <= n,
                indices@.len() == v,
                forall|k: int| 0 <= k < v ==> (#[trigger] indices@[k]) < n,
                indices@.no_duplicates(),
                forall|x: usize| indices@.contains(x) ==> x < v,
                forall|x: usize| x < v ==> indices@.contains(x),
                forall|a: int, b: int|
                    0 <= a < b < v ==> slot_le(bens, #[trigger] indices@[a], #[trigger] indices@[b]),
            decreases n - v,
        {
            // Find where insertion index v belongs among the already-placed
            // indices.
            let idx = slot_insertion_point(&indices, &benefits, v);
            proof {
                assert forall|j: int| idx <= j < indices@.len() implies slot_le(
                    bens,
                    v,
                    #[trigger] indices@[j],
                ) by {
                    assert(slot_le(bens, v, indices@[idx as int]));
                    if j > idx {
                        assert(slot_le(bens, indices@[idx as int], indices@[j]));
                    }
                }
            }
            let ghost pre = indices@;
            indices.insert(idx, v);
            proof {
                assert(indices@ == pre.insert(idx as int, v));
                assert(pre.insert(idx as int, v) =~= pre.take(idx as int) + seq![v] + pre.skip(
                    idx as int,
                ));
                assert forall|a: int, b: int| 0 <= a < b < indices@.len() implies slot_le(
                    bens,
                    #[trigger] indices@[a],
                    #[trigger] indices@[b],
                ) by {
                    if b < idx {
                        assert(indices@[a] == pre[a] && indices@[b] == pre[b]);
                    } else if a > idx {
                        assert(indices@[a] == pre[a - 1] && indices@[b] == pre[b - 1]);
                    } else if a == idx && b > idx {
                        assert(indices@[a] == v && indices@[b] == pre[b - 1]);
                    } else if b == idx {
                        assert(indices@[a] == pre[a] && indices@[b] == v);
                    } else if a < idx && b > idx {
                        assert(indices@[a] == pre[a] && indices@[b] == pre[b - 1]);
                        assert(slot_le(bens, indices@[a], v) && slot_le(bens, v, indices@[b]));
                    }
                }
                assert forall|x: usize| indices@.contains(x) implies x < v + 1 by {
                    let k = choose|k: int| 0 <= k < indices@.len() && indices@[k] == x;
                    if k < idx {
                        assert(pre[k] == x);
                        assert(pre.contains(x));
                    } else if k > idx {
                        assert(pre[k - 1] == x);
                        assert(pre.contains(x));
                    }
                }
                assert forall|x: usize| x < v + 1 implies indices@.contains(x) by {
                    if x < v {
                        assert(pre.contains(x));
                        let k = choose|k: int| 0 <= k < pre.len() && pre[k] == x;
                        if k < idx {
                            assert(indices@[k] == x);
                        } else {
                            assert(indices@[k + 1] == x);
                        }
                    } else {
                        assert(indices@[idx as int] == v);
                    }
                }
                assert forall|k: int| 0 <= k < indices@.len() implies (#[trigger] indices@[k]) < n
                    by {
                    if k < idx {
                        assert(indices@[k] == pre[k]);
                    } else if k > idx {
                        assert(indices@[k] == pre[k - 1]);
                    }
                }
                assert(indices@.no_duplicates()) by {
                    assert forall|a: int, b: int|
                        0 <= a < indices@.len() && 0 <= b < indices@.len() && a != b implies
                    indices@[a] != indices@[b] by {
                        let xa = indices@[a];
                        let xb = indices@[b];
                        if a == idx {
                            if b < idx {
                                assert(indices@[b] == pre[b]);
                                assert(pre.contains(pre[b]));
                            } else {
                                assert(indices@[b] == pre[b - 1]);
                                assert(pre.contains(pre[b - 1]));
                            }
                        } else if b == idx {
                            if a < idx {
                                assert(indices@[a] == pre[a]);
                                assert(pre.contains(pre[a]));
                            } else {
                                assert(indices@[a] == pre[a - 1]);
                                assert(pre.contains(pre[a - 1]));
                            }
                        } else {
                            let pa: int = if a < idx {
                                a
                            } else {
                                a - 1
                            };
                            let pb: int = if b < idx {
                                b
                            } else {
                                b - 1
                            };
                            assert(indices@[a] == pre[pa] && indices@[b] == pre[pb]);
                            assert(pa != pb);
                        }
                    }
                }
            }
            v += 1;
        }
        // Record each entry's final slot.
        let ghost before = strings.entries@;
        let mut k: usize = 0;
        while k < n
            invariant
                n == strings.entries@.len(),
                n == before.len(),
                indices@.len() == n,
                forall|m: int| 0 <= m < n ==> (#[trigger] indices@[m]) < n,
                indices@.no_duplicates(),
                0 <= k <= n,
                forall|m: int|
                    0 <= m < n ==> {
                        &&& (#[trigger] strings.entries@[m]).0 == before[m].0
                        &&& strings.entries@[m].1.count == before[m].1.count
                        &&& strings.entries@[m].1.first_pos == before[m].1.first_pos
                        &&& strings.entries@[m].1.index == before[m].1.index
                    },
                forall|m: int|
                    0 <= m < k ==> (#[trigger] strings.entries@[indices@[m] as int]).1.dictionary_entry
                        == m,
            decreases n - k,
        {
            let target = indices[k];
            let ghost prev = strings.entries@;
            let (entry, stats) = strings.entries.remove(target);
            let new_stats = DictionaryEntryStats {
                count: stats.count,
                dictionary_entry: k,
                first_pos: stats.first_pos,
                index: stats.index,
            };
            strings.entries.insert(target, (entry, new_stats));
            proof {
                assert(strings.entries@ =~= prev.update(target as int, (entry, new_stats)));
                assert forall|m: int| 0 <= m < k + 1 implies (
                #[trigger] strings.entries@[indices@[m] as int]).1.dictionary_entry == m by {
                    if m < k {
                        assert(indices@[m] != indices@[k as int]);
                        assert(strings.entries@[indices@[m] as int] == prev[indices@[m] as int]);
                    }
                }
            }
            k += 1;
        }
        proof {
            let final_bens = Seq::new(
                n as nat,
                |i: int|
                    spec_benefit(
                        strings.entries@[i].0,
                        ident_len,
                        strings.entries@[i].1.count as nat,
                    ),
            );
            assert forall|k: int| 0 <= k < n implies bens[k] == final_bens[k] by {
                assert(strings.entries@[k].0 == before[k].0);
                assert(strings.entries@[k].1.count == before[k].1.count);
                assert(bens[k] == benefits@[k] as nat);
            }
            assert(bens =~= final_bens);
            assert forall|a: int, b: int|
                0 <= a < b < strings.entries@.len() implies !crate::dictionary::entry_same(
                (#[trigger] strings.entries@[a]).0,
                (#[trigger] strings.entries@[b]).0,
            ) by {
                assert(strings.entries@[a].0 == before[a].0);
                assert(strings.entries@[b].0 == before[b].0);
            }
            assert forall|m: int| 0 <= m < strings.entries@.len() implies (
            #[trigger] strings.entries@[m]).1.index == m by {
                assert(strings.entries@[m].1.index == before[m].1.index);
            }
        }
        OptimizedDictionary { indices, strings }
    }

    /// The final slot assigned to the entry with the given insertion index,
    /// or an invalid-index error exactly when no entry has that index.
    pub fn entry_for_index(&self, dictionary_index: usize) -> (r: Result<usize, DictionaryError>)
        ensures
            match r {
                Ok(slot) => dictionary_index < self.strings.entries@.len() && slot
                    == self.strings.entries@[dictionary_index as int].1.dictionary_entry,
                Err(e) => dictionary_index >= self.strings.entries@.len() && (e matches
                    DictionaryError::InvalidIndex(i) && i == dictionary_index),
            },
    {
        match self.strings.get_index(dictionary_index) {
            Some(pair) => Ok(pair.1.dictionary_entry),
            None => Err(DictionaryError::InvalidIndex(dictionary_index)),
        }
    }
}


/// Where insertion index `v` belongs among the already-placed indices: the
/// position of the first placed index that does not come at or before `v` in
/// slot order.
fn slot_insertion_point(indices: &Vec<usize>, benefits: &Vec<u128>, v: usize) -> (idx: usize)
    requires
        forall|k: int| 0 <= k < indices@.len() ==> (#[trigger] indices@[k]) < benefits@.len(),
        v < benefits@.len(),
    ensures
        0 <= idx <= indices@.len(),
        forall|j: int|
            0 <= j < idx ==> slot_le(
                benefits@.map_values(|x: u128| x as nat),
                #[trigger] indices@[j],
                v,
            ),
        idx < indices@.len() ==> !slot_le(
            benefits@.map_values(|x: u128| x as nat),
            indices@[idx as int],
            v,
        ) && slot_le(benefits@.map_values(|x: u128| x as nat), v, indices@[idx as int]),
{
    let ghost bens = benefits@.map_values(|x: u128| x as nat);
    let mut idx: usize = 0;
    while idx < indices.len()
        invariant
            forall|k: int| 0 <= k < indices@.len() ==> (#[trigger] indices@[k]) < benefits@.len(),
            v < benefits@.len(),
            bens == benefits@.map_values(|x: u128| x as nat),
            0 <= idx <= indices@.len(),
            forall|j: int| 0 <= j < idx ==> slot_le(bens, #[trigger] indices@[j], v),
        decreases indices@.len() - idx,
    {
        let w = indices[idx];
        let keep_before = if benefits[w] > benefits[v] {
            true
        } else {
            benefits[w] == benefits[v] && w <= v
        };
        if !keep_before {
            proof {
                assert(!slot_le(bens, w, v));
                assert(slot_le(bens, v, w));
            }
            return idx;
        }
        idx += 1;
    }
    idx
}

} // verus!
