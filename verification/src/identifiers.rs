//! The identifier allocator: observes every identifier used in the program
//! and can mint a brand-new identifier guaranteed not to collide with any of
//! them.

use vstd::prelude::*;

use crate::text::chars_to_vec;
use crate::trusted::push_char;

verus! {

/// Where a character has been seen inside tracked identifiers.
///
/// `low_pos_mask` records, bit by bit, whether the character has appeared at
/// each of the first 16 string positions. `upper_bound` is one past the
/// highest position the character has appeared at, saturated at `u16::MAX`.
#[derive(Clone, Copy, Debug)]
pub struct CharacterUsageData {
    pub low_pos_mask: u16,
    pub upper_bound: u16,
}

/// True when bit `p` of `m` is set.
pub open spec fn bit_is_set(m: u16, p: nat) -> bool {
    p < 16 && (m >> (p as u16)) & 1u16 == 1u16
}

/// The lowest position at or above `p` whose bit in `m` is clear, or 16 when
/// every bit from `p` up is set.
pub open spec fn spec_lowest_clear(m: u16, p: nat) -> nat
    decreases 16 - p,
{
    if p >= 16 {
        16
    } else if !bit_is_set(m, p) {
        p
    } else {
        spec_lowest_clear(m, p + 1)
    }
}

impl CharacterUsageData {
    /// Every position marked in the mask lies below the upper bound.
    pub open spec fn wf(self) -> bool {
        forall|p: nat| bit_is_set(self.low_pos_mask, p) ==> p < self.upper_bound
    }

    /// True when the data records the character as possibly used at string
    /// position `p`.
    pub open spec fn covered(self, p: nat) -> bool {
        if p < 16 {
            bit_is_set(self.low_pos_mask, p)
        } else {
            self.upper_bound == 0xFFFF || p < self.upper_bound
        }
    }

    /// What `first_unused` returns.
    pub open spec fn spec_first_unused(self) -> nat {
        if self.low_pos_mask == 0xFFFF {
            self.upper_bound as nat
        } else {
            spec_lowest_clear(self.low_pos_mask, 0)
        }
    }

    /// Record that the character appeared at string position `position`.
    pub fn add_usage(&mut self, position: usize)
        requires
            old(self).wf(),
        ensures
            *final(self) == spec_add_usage(*old(self), position),
            final(self).wf(),
            forall|q: nat| old(self).covered(q) ==> final(self).covered(q),
            final(self).covered(position as nat),
    {
        let pos16: u16 = if position >= 65535 {
            65535
        } else {
            position as u16
        };
        let ghost pre = *self;
        if pos16 < 16 {
            self.low_pos_mask = self.low_pos_mask | (1u16 << pos16);
        }
        if pos16 == 65535 {
            self.upper_bound = 65535;
        } else if self.upper_bound < pos16 + 1 {
            self.upper_bound = pos16 + 1;
        }
        proof {
            if pos16 < 16 {
                lemma_or_bits(pre.low_pos_mask, pos16);
            }
            assert(pre.upper_bound <= self.upper_bound);
            assert forall|q: nat| bit_is_set(self.low_pos_mask, q) implies q < self.upper_bound
                by {
                if pos16 < 16 {
                    if q != pos16 as nat {
                        assert(bit_is_set(pre.low_pos_mask, q));
                    }
                } else {
                    assert(bit_is_set(pre.low_pos_mask, q));
                }
            }
            assert forall|q: nat| pre.covered(q) implies self.covered(q) by {
                if q < 16 {
                    assert(bit_is_set(self.low_pos_mask, q));
                }
            }
            if position < 16 {
                assert(pos16 as nat == position as nat);
                assert(bit_is_set(self.low_pos_mask, position as nat));
            }
            assert(self.covered(position as nat));
        }
    }

    /// The lowest string position at which the character has never been
    /// recorded: the first clear bit of the mask, or the upper bound once
    /// every early position has been seen.
    pub fn first_unused(&self) -> (r: usize)
        requires
            self.wf(),
        ensures
            r == self.spec_first_unused(),
            r < 65535 ==> !self.covered(r as nat),
    {
        if self.low_pos_mask < 65535 {
            let mut p: u16 = 0;
            while p < 16
                invariant
                    self.low_pos_mask < 65535,
                    0 <= p <= 16,
                    forall|q: nat| q < p ==> bit_is_set(self.low_pos_mask, q),
                decreases 16 - p,
            {
                let ghost m = self.low_pos_mask;
                proof {
                    assert((m >> p) & 1u16 == 0 || (m >> p) & 1u16 == 1u16) by (bit_vector);
                    assert(((p as nat) as u16) == p);
                }
                if (self.low_pos_mask >> p) & 1u16 == 0 {
                    proof {
                        assert(!bit_is_set(self.low_pos_mask, p as nat));
                        lemma_lowest_clear_at(self.low_pos_mask, p as nat, 0);
                        assert(spec_lowest_clear(self.low_pos_mask, 0) == p as nat);
                    }
                    return p as usize;
                }
                proof {
                    assert((m >> p) & 1u16 == 1u16);
                    assert(bit_is_set(self.low_pos_mask, p as nat));
                }
                p += 1;
            }
            proof {
                let m = self.low_pos_mask;
                assert forall|q: nat| q < 16 implies bit_is_set(m, q) by {}
                assert(bit_is_set(m, 0) && bit_is_set(m, 1) && bit_is_set(m, 2) && bit_is_set(m, 3)
                    && bit_is_set(m, 4) && bit_is_set(m, 5) && bit_is_set(m, 6) && bit_is_set(m, 7)
                    && bit_is_set(m, 8) && bit_is_set(m, 9) && bit_is_set(m, 10) && bit_is_set(
                    m,
                    11,
                ) && bit_is_set(m, 12) && bit_is_set(m, 13) && bit_is_set(m, 14) && bit_is_set(
                    m,
                    15,
                ));
                assert((m >> 0u16) & 1u16 == 1 && (m >> 1u16) & 1u16 == 1 && (m >> 2u16) & 1u16 == 1
                    && (m >> 3u16) & 1u16 == 1 && (m >> 4u16) & 1u16 == 1 && (m >> 5u16) & 1u16 == 1
                    && (m >> 6u16) & 1u16 == 1 && (m >> 7u16) & 1u16 == 1 && (m >> 8u16) & 1u16 == 1
                    && (m >> 9u16) & 1u16 == 1 && (m >> 10u16) & 1u16 == 1 && (m >> 11u16) & 1u16
                    == 1 && (m >> 12u16) & 1u16 == 1 && (m >> 13u16) & 1u16 == 1 && (m >> 14u16)
                    & 1u16 == 1 && (m >> 15u16) & 1u16 == 1 ==> m == 0xFFFF) by (bit_vector);
                assert(false);
            }
            0
        } else {
            proof {
                let m = self.low_pos_mask;
                assert((m >> 15u16) & 1u16 == 1u16) by (bit_vector)
                    requires
                        m == 0xFFFF,
                ;
                assert(bit_is_set(m, 15));
            }
            self.upper_bound as usize
        }
    }
}

impl Default for CharacterUsageData {
    /// Fresh usage data: no position seen yet.
    fn default() -> (r: Self)
        ensures
            r.low_pos_mask == 0,
            r.upper_bound == 0,
            r.wf(),
    {
        proof {
            assert forall|p: nat| !bit_is_set(0u16, p) by {
                if p < 16 {
                    let p16 = p as u16;
                    assert(p16 < 16 ==> (0u16 >> p16) & 1u16 == 0u16) by (bit_vector);
                }
            }
        }
        CharacterUsageData { low_pos_mask: 0, upper_bound: 0 }
    }
}

/// What recording one usage does to the data: positions below 16 set their
/// mask bit; the upper bound rises to one past the position, saturating at
/// the top of the 16-bit range.
pub open spec fn spec_add_usage(d: CharacterUsageData, position: usize) -> CharacterUsageData {
    let pos16: u16 = if position >= 65535 {
        65535u16
    } else {
        position as u16
    };
    CharacterUsageData {
        low_pos_mask: if pos16 < 16 {
            d.low_pos_mask | (1u16 << pos16)
        } else {
            d.low_pos_mask
        },
        upper_bound: if pos16 == 65535 {
            65535u16
        } else if d.upper_bound < pos16 + 1 {
            (pos16 + 1) as u16
        } else {
            d.upper_bound
        },
    }
}

/// What observing one identifier does to the usage table: its last
/// character, when the table has it, is recorded at the identifier's last
/// position.
pub open spec fn spec_tracker_add(
    usage: Seq<CharacterUsageData>,
    id: Seq<char>,
) -> Seq<CharacterUsageData> {
    if id.len() == 0 {
        usage
    } else {
        match spec_char_index(id.last()) {
            Some(i) => usage.update(i, spec_add_usage(usage[i], (id.len() - 1) as usize)),
            None => usage,
        }
    }
}

/// Setting bit `p` marks exactly position `p` and keeps every other mark.
proof fn lemma_or_bits(m: u16, p: u16)
    requires
        p < 16,
    ensures
        forall|q: nat| bit_is_set(m, q) ==> bit_is_set(m | (1u16 << p), q),
        bit_is_set(m | (1u16 << p), p as nat),
        forall|q: nat| bit_is_set(m | (1u16 << p), q) ==> bit_is_set(m, q) || q == p as nat,
{
    assert forall|q: nat| bit_is_set(m, q) implies bit_is_set(m | (1u16 << p), q) by {
        let q16 = q as u16;
        assert(q16 < 16 && (m >> q16) & 1u16 == 1u16 ==> ((m | (1u16 << p)) >> q16) & 1u16 == 1u16)
            by (bit_vector);
    }
    assert(p < 16 ==> ((m | (1u16 << p)) >> p) & 1u16 == 1u16) by (bit_vector);
    assert forall|q: nat| bit_is_set(m | (1u16 << p), q) implies bit_is_set(m, q) || q == p as nat
        by {
        let q16 = q as u16;
        assert(q16 < 16 && p < 16 && q16 != p && ((m | (1u16 << p)) >> q16) & 1u16 == 1u16 ==> (m
            >> q16) & 1u16 == 1u16) by (bit_vector);
    }
}

proof fn lemma_lowest_clear_at(m: u16, p: nat, k: nat)
    requires
        k <= p < 16,
        forall|q: nat| k <= q < p ==> bit_is_set(m, q),
        !bit_is_set(m, p),
    ensures
        spec_lowest_clear(m, k) == p,
    decreases p - k,
{
    if k == p {
    } else {
        assert(bit_is_set(m, k));
        lemma_lowest_clear_at(m, p, k + 1);
    }
}

/// The index a legal identifier character occupies in the usage table:
/// upper-case letters, then lower-case letters, then digits, then `$` and
/// `_`; `None` for every other character.
pub open spec fn spec_char_index(c: char) -> Option<int> {
    let u = c as u32;
    if 65 <= u <= 90 {
        Some((u - 65) as int)
    } else if 97 <= u <= 122 {
        Some((u - 97 + 26) as int)
    } else if 48 <= u <= 57 {
        Some((u - 48 + 52) as int)
    } else if u == 36 {
        Some(62int)
    } else if u == 95 {
        Some(63int)
    } else {
        None
    }
}

/// The character at a usage-table index.
pub open spec fn spec_char_for(i: int) -> Option<char> {
    if 0 <= i < 26 {
        Some(((i + 65) as u8) as char)
    } else if 26 <= i < 52 {
        Some(((i - 26 + 97) as u8) as char)
    } else if 52 <= i < 62 {
        Some(((i - 52 + 48) as u8) as char)
    } else if i == 62 {
        Some('$')
    } else if i == 63 {
        Some('_')
    } else {
        None
    }
}

/// Tracks, for every legal identifier character, the string positions it has
/// been seen at across all identifiers in the program: 26 upper-case letters,
/// 26 lower-case letters, 10 digits, `$` and `_`.
pub struct CharacterTracker {
    pub characters: Vec<CharacterUsageData>,
}

impl CharacterTracker {
    pub open spec fn wf(self) -> bool {
        &&& self.characters@.len() == 64
        &&& forall|i: int| 0 <= i < 64 ==> (#[trigger] self.characters@[i]).wf()
    }

    /// A tracker in which no character has been seen, except that every
    /// digit is pre-blocked at position 0 (an identifier cannot begin with a
    /// digit) and `_` is pre-blocked as `_` and `__` (names some
    /// internationalization helpers claim).
    pub fn new() -> (r: CharacterTracker)
        ensures
            r.wf(),
            r.characters@.len() == 64,
            forall|i: int|
                0 <= i < 52 ==> (#[trigger] r.characters@[i]) == (CharacterUsageData {
                    low_pos_mask: 0,
                    upper_bound: 0,
                }),
            forall|i: int|
                52 <= i < 62 ==> (#[trigger] r.characters@[i]) == (CharacterUsageData {
                    low_pos_mask: 1,
                    upper_bound: 1,
                }),
            r.characters@[62] == (CharacterUsageData { low_pos_mask: 0, upper_bound: 0 }),
            r.characters@[63] == (CharacterUsageData { low_pos_mask: 3, upper_bound: 2 }),
    {
        let mut characters: Vec<CharacterUsageData> = Vec::new();
        let mut i: usize = 0;
        while i < 64
            invariant
                0 <= i <= 64,
                characters@.len() == i,
                forall|j: int|
                    0 <= j < i ==> (#[trigger] characters@[j]).wf() && characters@[j].low_pos_mask
                        == 0 && characters@[j].upper_bound == 0,
            decreases 64 - i,
        {
            characters.push(CharacterUsageData::default());
            i += 1;
        }
        let mut set = CharacterTracker { characters };
        set.add("0");
        set.add("1");
        set.add("2");
        set.add("3");
        set.add("4");
        set.add("5");
        set.add("6");
        set.add("7");
        set.add("8");
        set.add("9");
        set.add("_");
        set.add("__");
        proof {
            reveal_strlit("0");
            reveal_strlit("1");
            reveal_strlit("2");
            reveal_strlit("3");
            reveal_strlit("4");
            reveal_strlit("5");
            reveal_strlit("6");
            reveal_strlit("7");
            reveal_strlit("8");
            reveal_strlit("9");
            reveal_strlit("_");
            reveal_strlit("__");
            assert("0"@ =~= seq!['0'] && "1"@ =~= seq!['1'] && "2"@ =~= seq!['2'] && "3"@
                =~= seq!['3'] && "4"@ =~= seq!['4'] && "5"@ =~= seq!['5'] && "6"@ =~= seq!['6']
                && "7"@ =~= seq!['7'] && "8"@ =~= seq!['8'] && "9"@ =~= seq!['9'] && "_"@
                =~= seq!['_'] && "__"@ =~= seq!['_', '_']);
            assert(0u16 | (1u16 << 0u16) == 1u16) by (bit_vector);
            assert(1u16 | (1u16 << 1u16) == 3u16) by (bit_vector);
            assert(set.characters@.len() == 64);
            assert forall|i: int| 52 <= i < 62 implies (#[trigger] set.characters@[i])
                == (CharacterUsageData { low_pos_mask: 1, upper_bound: 1 }) by {}
            assert forall|i: int| 0 <= i < 52 implies (#[trigger] set.characters@[i])
                == (CharacterUsageData { low_pos_mask: 0, upper_bound: 0 }) by {}
            assert(set.characters@[62] == (CharacterUsageData { low_pos_mask: 0, upper_bound: 0 }));
            assert(set.characters@[63] == (CharacterUsageData { low_pos_mask: 3, upper_bound: 2 }));
        }
        set
    }

    /// Record the last character of `string` as used at its position.
    ///
    /// Only the final character matters: a fresh identifier of length `n`
    /// collides with an existing one only if both end in the same character,
    /// so usage of the last character at position `n - 1` is all the
    /// allocator must remember.
    pub fn add(&mut self, string: &str)
        requires
            old(self).wf(),
        ensures
            final(self).characters@ == spec_tracker_add(old(self).characters@, string@),
            final(self).wf(),
            final(self).characters@.len() == old(self).characters@.len(),
            forall|i: int, q: nat|
                0 <= i < 64 && #[trigger] old(self).characters@[i].covered(q)
                    ==> #[trigger] final(self).characters@[i].covered(q),
            (string@.len() > 0 && spec_char_index(string@.last()) is Some) ==> final(self).characters@[spec_char_index(string@.last()).unwrap()].covered(
                (string@.len() - 1) as nat,
            ),
    {
        let cs = chars_to_vec(string);
        if cs.len() > 0 {
            let c = cs[cs.len() - 1];
            match Self::index_for(c) {
                Some(index) => {
                    let mut data = self.characters[index];
                    data.add_usage(cs.len() - 1);
                    self.characters.set(index, data);
                },
                None => {},
            }
        }
    }

    /// The character/position pair that minimizes the position at which the
    /// character has never been seen; among equally low positions, the
    /// earliest table index wins.
    pub fn first_unused_character(&self) -> (r: (char, usize))
        requires
            self.wf(),
        ensures
            spec_char_index(r.0) is Some,
            ({
                let i = spec_char_index(r.0).unwrap();
                &&& 0 <= i < 64
                &&& spec_char_for(i) == Some(r.0)
                &&& r.1 == self.characters@[i].spec_first_unused()
                &&& r.1 < 65535 ==> !self.characters@[i].covered(r.1 as nat)
                &&& forall|j: int|
                    0 <= j < 64 ==> (#[trigger] self.characters@[j]).spec_first_unused() >= r.1
                &&& forall|j: int|
                    0 <= j < i ==> (#[trigger] self.characters@[j]).spec_first_unused() > r.1
            }),
    {
        let mut best_index: usize = 0;
        let mut best_value: usize = self.characters[0].first_unused();
        let mut j: usize = 1;
        while j < 64
            invariant
                self.wf(),
                1 <= j <= 64,
                0 <= best_index < j,
                best_value == self.characters@[best_index as int].spec_first_unused(),
                best_value < 65535 ==> !self.characters@[best_index as int].covered(
                    best_value as nat,
                ),
                forall|k: int|
                    0 <= k < j ==> (#[trigger] self.characters@[k]).spec_first_unused()
                        >= best_value,
                forall|k: int|
                    0 <= k < best_index ==> (#[trigger] self.characters@[k]).spec_first_unused()
                        > best_value,
            decreases 64 - j,
        {
            let value = self.characters[j].first_unused();
            if value < best_value {
                best_index = j;
                best_value = value;
            }
            j += 1;
        }
        let c = match Self::character_for(best_index) {
            Some(c) => c,
            None => ' ',  // unreachable: best_index < 64
        };
        proof {
            assert(spec_char_for(best_index as int) is Some);
            assert(spec_char_index(c) == Some(best_index as int));
        }
        (c, best_value)
    }

    /// The character at a usage-table index.
    pub fn character_for(index: usize) -> (r: Option<char>)
        ensures
            r == spec_char_for(index as int),
    {
        if index < 26 {
            Some((65u8 + index as u8) as char)
        } else if index < 52 {
            Some((97u8 + (index - 26) as u8) as char)
        } else if index < 62 {
            Some((48u8 + (index - 52) as u8) as char)
        } else if index == 62 {
            Some('$')
        } else if index == 63 {
            Some('_')
        } else {
            None
        }
    }

    /// The usage-table index of a character.
    pub fn index_for(character: char) -> (r: Option<usize>)
        ensures
            match r {
                Some(i) => spec_char_index(character) == Some(i as int),
                None => spec_char_index(character) is None,
            },
    {
        let u = character as u32;
        if 65 <= u && u <= 90 {
            Some((u - 65) as usize)
        } else if 97 <= u && u <= 122 {
            Some((u - 97 + 26) as usize)
        } else if 48 <= u && u <= 57 {
            Some((u - 48 + 52) as usize)
        } else if u == 36 {
            Some(62)
        } else if u == 95 {
            Some(63)
        } else {
            None
        }
    }
}

/// True when the availability list holds `name` still available.
pub open spec fn avail_has(avail: Seq<(String, bool)>, name: Seq<char>) -> bool {
    exists|k: int| 0 <= k < avail.len() && (#[trigger] avail[k]).0@ == name && avail[k].1
}

/// True when `name` appears among the first `n` requested identifiers.
pub open spec fn input_has(list: Seq<&str>, n: int, name: Seq<char>) -> bool {
    exists|m: int| 0 <= m < n && (#[trigger] list[m])@ == name
}

/// Marking one name unavailable leaves exactly the other available names.
proof fn lemma_availability_flip(
    pre: Seq<(String, bool)>,
    post: Seq<(String, bool)>,
    flipped: Seq<char>,
)
    requires
        post.len() == pre.len(),
        forall|k: int|
            0 <= k < pre.len() ==> (#[trigger] post[k]).0 == pre[k].0 && post[k].1 == (pre[k].1
                && pre[k].0@ != flipped),
    ensures
        forall|name: Seq<char>|
            #![trigger avail_has(post, name)]
            avail_has(post, name) == (avail_has(pre, name) && name != flipped),
{
    assert forall|name: Seq<char>|
        #![trigger avail_has(post, name)]
        avail_has(post, name) == (avail_has(pre, name) && name != flipped) by {
        if avail_has(post, name) {
            let k = choose|k: int|
                0 <= k < post.len() && (#[trigger] post[k]).0@ == name && post[k].1;
            assert(pre[k].0@ == name && pre[k].1 && name != flipped);
        }
        if avail_has(pre, name) && name != flipped {
            let k = choose|k: int| 0 <= k < pre.len() && (#[trigger] pre[k]).0@ == name && pre[k].1;
            assert(post[k].0@ == name && post[k].1);
        }
    }
}

proof fn lemma_avail_extend(pre: Seq<(String, bool)>, post: Seq<(String, bool)>, name: Seq<char>)
    requires
        avail_has(pre, name),
        pre.len() <= post.len(),
        forall|k: int| 0 <= k < pre.len() ==> #[trigger] post[k] == pre[k],
    ensures
        avail_has(post, name),
{
    let k = choose|k: int| 0 <= k < pre.len() && (#[trigger] pre[k]).0@ == name && pre[k].1;
    assert((post[k]).0@ == name && post[k].1);
}

/// The identifier allocator: remembers which identifiers exist and mints
/// fresh ones.
pub struct IdentifierTracker {
    desired_identifier_availability: Vec<(String, bool)>,
    tracker: CharacterTracker,
    added: Ghost<Set<Seq<char>>>,
}

impl IdentifierTracker {
    /// The identifiers reported so far, as a ghost set.
    pub closed spec fn spec_added(self) -> Set<Seq<char>> {
        self.added@
    }

    /// The per-character usage table, for speaking about the allocator's
    /// choices.
    pub closed spec fn spec_usage(self) -> Seq<CharacterUsageData> {
        self.tracker.characters@
    }

    /// True when `name` was reserved at construction and has not been handed
    /// out or observed since, so it may still be returned verbatim.
    pub closed spec fn spec_reserved_available(self, name: Seq<char>) -> bool {
        exists|k: int|
            0 <= k < self.desired_identifier_availability@.len() && (
            #[trigger] self.desired_identifier_availability@[k]).0@ == name
                && self.desired_identifier_availability@[k].1
    }

    pub closed spec fn wf(self) -> bool {
        &&& self.tracker.wf()
        &&& forall|k: int, m: int|
            0 <= k < m < self.desired_identifier_availability@.len()
                ==> #[trigger] self.desired_identifier_availability@[k].0@
                != #[trigger] self.desired_identifier_availability@[m].0@
        &&& forall|k: int|
            0 <= k < self.desired_identifier_availability@.len() && (
            #[trigger] self.desired_identifier_availability@[k]).1 ==> !self.added@.contains(
                self.desired_identifier_availability@[k].0@,
            )
        &&& forall|id: Seq<char>|
            #[trigger] self.added@.contains(id) && id.len() > 0 && spec_char_index(id.last())
                is Some ==> self.tracker.characters@[spec_char_index(id.last()).unwrap()].covered(
                (id.len() - 1) as nat,
            )
    }

    /// A tracker that would like to hand out the given identifiers verbatim
    /// if the program never uses them.
    pub fn new(desired_identifiers: Vec<&str>) -> (r: IdentifierTracker)
        ensures
            r.wf(),
            r.spec_added() == Set::<Seq<char>>::empty(),
            forall|name: Seq<char>|
                #![trigger r.spec_reserved_available(name)]
                r.spec_reserved_available(name) <==> input_has(
                    desired_identifiers@,
                    desired_identifiers@.len() as int,
                    name,
                ),
            r.spec_usage().len() == 64,
            forall|i: int|
                0 <= i < 52 ==> (#[trigger] r.spec_usage()[i]) == (CharacterUsageData {
                    low_pos_mask: 0,
                    upper_bound: 0,
                }),
            forall|i: int|
                52 <= i < 62 ==> (#[trigger] r.spec_usage()[i]) == (CharacterUsageData {
                    low_pos_mask: 1,
                    upper_bound: 1,
                }),
            r.spec_usage()[62] == (CharacterUsageData { low_pos_mask: 0, upper_bound: 0 }),
            r.spec_usage()[63] == (CharacterUsageData { low_pos_mask: 3, upper_bound: 2 }),
    {
        let mut availability: Vec<(String, bool)> = Vec::new();
        let mut i: usize = 0;
        while i < desired_identifiers.len()
            invariant
                0 <= i <= desired_identifiers@.len(),
                forall|k: int, m: int|
                    0 <= k < m < availability@.len() ==> #[trigger] availability@[k].0@
                        != #[trigger] availability@[m].0@,
                forall|k: int| 0 <= k < availability@.len() ==> (#[trigger] availability@[k]).1,
                forall|m: int|
                    0 <= m < i ==> avail_has(availability@, (#[trigger] desired_identifiers@[m])@),
                forall|k: int|
                    0 <= k < availability@.len() ==> input_has(
                        desired_identifiers@,
                        i as int,
                        (#[trigger] availability@[k]).0@,
                    ),
            decreases desired_identifiers@.len() - i,
        {
            let ghost pre = availability@;
            let name = desired_identifiers[i];
            if !Self::availability_contains(&availability, name) {
                availability.push((name.to_owned(), true));
                proof {
                    let post = availability@;
                    assert forall|k: int, m: int| 0 <= k < m < post.len() implies
                    #[trigger] post[k].0@ != #[trigger] post[m].0@ by {
                        if m == post.len() - 1 {
                            assert(!(exists|j: int|
                                0 <= j < post.len() - 1 && (#[trigger] post[j]).0@ == name@));
                        }
                    }
                }
            }
            proof {
                let post = availability@;
                assert forall|m: int| 0 <= m < i + 1 implies avail_has(
                    post,
                    (#[trigger] desired_identifiers@[m])@,
                ) by {
                    if m < i {
                        lemma_avail_extend(pre, post, desired_identifiers@[m]@);
                    } else {
                        if post.len() == pre.len() {
                            assert(avail_has(pre, name@));
                            lemma_avail_extend(pre, post, name@);
                        } else {
                            assert(post[post.len() - 1].0@ == name@ && post[post.len() - 1].1);
                        }
                    }
                }
                assert forall|k: int| 0 <= k < post.len() implies input_has(
                    desired_identifiers@,
                    i + 1,
                    (#[trigger] post[k]).0@,
                ) by {
                    if k < pre.len() {
                        assert(post[k] == pre[k]);
                        let m = choose|m: int|
                            0 <= m < i && (#[trigger] desired_identifiers@[m])@ == pre[k].0@;
                        assert(0 <= m < i + 1 && desired_identifiers@[m]@ == post[k].0@);
                    } else {
                        assert(0 <= i < i + 1 && desired_identifiers@[i as int]@ == post[k].0@);
                    }
                }
            }
            i += 1;
        }
        let r = IdentifierTracker {
            desired_identifier_availability: availability,
            tracker: CharacterTracker::new(),
            added: Ghost(Set::empty()),
        };
        proof {
            let full = desired_identifiers@.len() as int;
            assert forall|name: Seq<char>|
                #![trigger r.spec_reserved_available(name)]
                r.spec_reserved_available(name) <==> input_has(desired_identifiers@, full, name) by {
                if r.spec_reserved_available(name) {
                    let k = choose|k: int|
                        0 <= k < availability@.len() && (#[trigger] availability@[k]).0@ == name
                            && availability@[k].1;
                    assert(input_has(desired_identifiers@, full, name));
                }
                if input_has(desired_identifiers@, full, name) {
                    let m = choose|m: int|
                        0 <= m < full && (#[trigger] desired_identifiers@[m])@ == name;
                    assert(avail_has(availability@, name));
                    let k = choose|k: int|
                        0 <= k < availability@.len() && (#[trigger] availability@[k]).0@ == name
                            && availability@[k].1;
                    assert(r.desired_identifier_availability@[k].0@ == name
                        && r.desired_identifier_availability@[k].1);
                    assert(r.spec_reserved_available(name));
                }
            }
        }
        r
    }

    fn availability_contains(availability: &Vec<(String, bool)>, name: &str) -> (r: bool)
        ensures
            r == exists|j: int|
                0 <= j < availability@.len() && (#[trigger] availability@[j]).0@ == name@,
    {
        let mut j: usize = 0;
        while j < availability.len()
            invariant
                0 <= j <= availability@.len(),
                forall|k: int| 0 <= k < j ==> (#[trigger] availability@[k]).0@ != name@,
            decreases availability@.len() - j,
        {
            if str_equal(availability[j].0.as_str(), name) {
                return true;
            }
            j += 1;
        }
        false
    }

    /// Observe one identifier used somewhere in the program.
    pub fn add_ident(&mut self, identifier: &str)
        requires
            old(self).wf(),
        ensures
            final(self).wf(),
            final(self).spec_added() == old(self).spec_added().insert(identifier@),
            forall|name: Seq<char>|
                #![trigger final(self).spec_reserved_available(name)]
                final(self).spec_reserved_available(name) == (old(self).spec_reserved_available(
                    name,
                ) && name != identifier@),
            final(self).spec_usage() == spec_tracker_add(old(self).spec_usage(), identifier@),
    {
        self.update_desired_identifier_availability(identifier);
        self.tracker.add(identifier);
        proof {
            self.added@ = self.added@.insert(identifier@);
            lemma_availability_flip(
                old(self).desired_identifier_availability@,
                self.desired_identifier_availability@,
                identifier@,
            );
            assert forall|name: Seq<char>|
                #![trigger self.spec_reserved_available(name)]
                self.spec_reserved_available(name) == (old(self).spec_reserved_available(name)
                    && name != identifier@) by {
                assert(self.spec_reserved_available(name) == avail_has(
                    self.desired_identifier_availability@,
                    name,
                ));
                assert(old(self).spec_reserved_available(name) == avail_has(
                    old(self).desired_identifier_availability@,
                    name,
                ));
            }
        }
    }

    /// Identifier freshness: the returned identifier differs from every
    /// identifier reported through `add_ident`, for identifiers of fewer
    /// than 65535 characters. A reserved desired identifier that was never
    /// observed is returned verbatim; otherwise the cheapest guaranteed-fresh
    /// identifier is synthesized: filler characters up to the lowest position
    /// at which some table character was never seen, then that character.
    /// Either way the result is recorded — its availability is withdrawn and
    /// its last character marked used — so a later call never returns it
    /// again.
    pub fn new_unused_identifier(&mut self, desired_identifier: &str) -> (r: String)
        requires
            old(self).wf(),
        ensures
            final(self).wf(),
            final(self).spec_added() == old(self).spec_added(),
            forall|id: Seq<char>|
                #[trigger] old(self).spec_added().contains(id) && id.len() <= 65534 ==> r@ != id,
            old(self).spec_reserved_available(desired_identifier@) ==> r@ == desired_identifier@,
            !old(self).spec_reserved_available(desired_identifier@) ==> exists|i: int|
                #![trigger old(self).spec_usage()[i]]
                {
                    let p = old(self).spec_usage()[i].spec_first_unused();
                    &&& 0 <= i < 64
                    &&& spec_char_for(i) is Some
                    &&& r@ == Seq::new(p, |m: int| 'D').push(spec_char_for(i).unwrap())
                    &&& (p < 65535 ==> !old(self).spec_usage()[i].covered(p))
                    &&& (forall|j: int|
                        0 <= j < 64 ==> (#[trigger] old(self).spec_usage()[j]).spec_first_unused()
                            >= p)
                    &&& (forall|j: int|
                        0 <= j < i ==> (#[trigger] old(self).spec_usage()[j]).spec_first_unused()
                            > p)
                },
            !final(self).spec_reserved_available(r@),
            forall|name: Seq<char>|
                #![trigger final(self).spec_reserved_available(name)]
                final(self).spec_reserved_available(name) == (old(self).spec_reserved_available(
                    name,
                ) && name != r@),
            final(self).spec_usage() == spec_tracker_add(old(self).spec_usage(), r@),
            match spec_char_index(r@.last()) {
                Some(i) => r@.len() > 0 ==> final(self).spec_usage()[i].covered(
                    (r@.len() - 1) as nat,
                ),
                None => true,
            },
    {
        let mut found_available = false;
        let mut j: usize = 0;
        let n = self.desired_identifier_availability.len();
        while j < n
            invariant
                n == self.desired_identifier_availability@.len(),
                0 <= j <= n,
                found_available ==> exists|k: int|
                    0 <= k < n && (#[trigger] self.desired_identifier_availability@[k]).0@
                        == desired_identifier@ && self.desired_identifier_availability@[k].1,
                !found_available ==> forall|k: int|
                    0 <= k < j ==> !((#[trigger] self.desired_identifier_availability@[k]).0@
                        == desired_identifier@ && self.desired_identifier_availability@[k].1),
            decreases n - j,
        {
            if str_equal(self.desired_identifier_availability[j].0.as_str(), desired_identifier) {
                if self.desired_identifier_availability[j].1 {
                    found_available = true;
                }
            }
            j += 1;
        }
        proof {
            assert(found_available == old(self).spec_reserved_available(desired_identifier@));
        }
        if found_available {
            // Hand the reserved name out verbatim, and record it so that no
            // later call can return it again.
            let result = desired_identifier.to_owned();
            self.update_desired_identifier_availability(desired_identifier);
            self.tracker.add(desired_identifier);
            proof {
                lemma_availability_flip(
                    old(self).desired_identifier_availability@,
                    self.desired_identifier_availability@,
                    desired_identifier@,
                );
                assert(!avail_has(self.desired_identifier_availability@, result@));
                assert forall|name: Seq<char>|
                    #![trigger self.spec_reserved_available(name)]
                    self.spec_reserved_available(name) == (old(self).spec_reserved_available(name)
                        && name != result@) by {
                    assert(self.spec_reserved_available(name) == avail_has(
                        self.desired_identifier_availability@,
                        name,
                    ));
                }
                // The reserved name was never reported, so it differs from
                // every reported identifier.
                let k = choose|k: int|
                    0 <= k < n && (#[trigger] old(self).desired_identifier_availability@[k]).0@
                        == desired_identifier@ && old(
                        self,
                    ).desired_identifier_availability@[k].1;
                assert(!old(self).spec_added().contains(desired_identifier@));
            }
            return result;
        }
        // Synthesize a fresh identifier: a character and position pair never
        // seen in any tracked identifier, padded with filler characters.
        let (unused_char, position) = self.tracker.first_unused_character();
        let mut unused_identifier = String::new();
        let mut k: usize = 0;
        while k < position
            invariant
                0 <= k <= position,
                unused_identifier@ =~= Seq::<char>::new(k as nat, |m: int| 'D'),
            decreases position - k,
        {
            proof {
                reveal_strlit("D");
                assert("D"@ =~= seq!['D']);
            }
            unused_identifier.append("D");
            proof {
                assert(unused_identifier@ =~= Seq::<char>::new((k + 1) as nat, |m: int| 'D'));
            }
            k += 1;
        }
        push_char(&mut unused_identifier, unused_char);
        // Record the new identifier so that a later call will not mint it
        // again, and withdraw any reserved name it happens to equal.
        self.tracker.add(unused_identifier.as_str());
        self.update_desired_identifier_availability(unused_identifier.as_str());
        proof {
            let r = unused_identifier@;
            assert(r.len() == position + 1);
            assert(r.last() == unused_char);
            let i = spec_char_index(unused_char).unwrap();
            lemma_availability_flip(
                old(self).desired_identifier_availability@,
                self.desired_identifier_availability@,
                r,
            );
            assert(!avail_has(self.desired_identifier_availability@, r));
            assert forall|name: Seq<char>|
                #![trigger self.spec_reserved_available(name)]
                self.spec_reserved_available(name) == (old(self).spec_reserved_available(name)
                    && name != r) by {
                assert(self.spec_reserved_available(name) == avail_has(
                    self.desired_identifier_availability@,
                    name,
                ));
            }
            assert forall|id: Seq<char>|
                #[trigger] old(self).spec_added().contains(id) && id.len() <= 65534 implies r
                != id by {
                if id == r {
                    assert(id.len() == position + 1);
                    assert(position < 65535);
                    assert(id.last() == unused_char);
                    assert(old(self).tracker.characters@[i].covered((id.len() - 1) as nat));
                    assert(!old(self).tracker.characters@[i].covered(position as nat));
                }
            }
            assert(exists|i2: int|
                #![trigger old(self).spec_usage()[i2]]
                {
                    let p = old(self).spec_usage()[i2].spec_first_unused();
                    &&& 0 <= i2 < 64
                    &&& spec_char_for(i2) is Some
                    &&& r == Seq::new(p, |m: int| 'D').push(spec_char_for(i2).unwrap())
                    &&& (p < 65535 ==> !old(self).spec_usage()[i2].covered(p))
                    &&& (forall|j2: int|
                        0 <= j2 < 64 ==> (
                        #[trigger] old(self).spec_usage()[j2]).spec_first_unused() >= p)
                    &&& (forall|j2: int|
                        0 <= j2 < i2 ==> (
                        #[trigger] old(self).spec_usage()[j2]).spec_first_unused() > p)
                }) by {
                assert(spec_char_for(i) == Some(unused_char));
                assert(position == old(self).spec_usage()[i].spec_first_unused());
                assert(r == Seq::new(
                    old(self).spec_usage()[i].spec_first_unused(),
                    |m: int| 'D',
                ).push(spec_char_for(i).unwrap()));
            }
        }
        unused_identifier
    }

    /// Once an identifier is seen in the program, a matching desired
    /// identifier can no longer be handed out verbatim.
    fn update_desired_identifier_availability(&mut self, string: &str)
        ensures
            final(self).desired_identifier_availability@.len() == old(self).desired_identifier_availability@.len(),
            forall|k: int|
                0 <= k < old(self).desired_identifier_availability@.len() ==> {
                    &&& (#[trigger] final(self).desired_identifier_availability@[k]).0 == old(self).desired_identifier_availability@[k].0
                    &&& final(self).desired_identifier_availability@[k].1 == (old(self).desired_identifier_availability@[k].1
                        && old(self).desired_identifier_availability@[k].0@ != string@)
                },
            final(self).tracker == old(self).tracker,
            final(self).added == old(self).added,
    {
        let mut j: usize = 0;
        let n = self.desired_identifier_availability.len();
        while j < n
            invariant
                n == self.desired_identifier_availability@.len(),
                n == old(self).desired_identifier_availability@.len(),
                0 <= j <= n,
                self.tracker == old(self).tracker,
                self.added == old(self).added,
                forall|k: int|
                    j <= k < n ==> #[trigger] self.desired_identifier_availability@[k] == old(self).desired_identifier_availability@[k],
                forall|k: int|
                    0 <= k < j ==> {
                        &&& (#[trigger] self.desired_identifier_availability@[k]).0 == old(self).desired_identifier_availability@[k].0
                        &&& self.desired_identifier_availability@[k].1 == (old(self).desired_identifier_availability@[k].1
                            && old(self).desired_identifier_availability@[k].0@ != string@)
                    },
            decreases n - j,
        {
            if str_equal(self.desired_identifier_availability[j].0.as_str(), string) {
                let name = self.desired_identifier_availability[j].0.clone();
                self.desired_identifier_availability.set(j, (name, false));
            }
            j += 1;
        }
    }
}

/// True when the two string slices hold the same characters.
pub fn str_equal(a: &str, b: &str) -> (r: bool)
    ensures
        r == (a@ == b@),
{
    let av = chars_to_vec(a);
    let bv = chars_to_vec(b);
    if av.len() != bv.len() {
        return false;
    }
    let mut i: usize = 0;
    while i < av.len()
        invariant
            av@.len() == bv@.len(),
            0 <= i <= av@.len(),
            av@ == a@,
            bv@ == b@,
            forall|j: int| 0 <= j < i ==> av@[j] == bv@[j],
        decreases av@.len() - i,
    {
        if av[i] != bv[i] {
            return false;
        }
        i += 1;
    }
    proof {
        assert(a@ =~= b@);
    }
    true
}

} // verus!
