//! A cache associating keys and scores of previously-computed positions,
//! and the loader for the opening-book binary format.

use vstd::prelude::*;

verus! {

use std::collections::HashMap;
use crate::engine::{MIN_SCORE, MAX_SCORE};

broadcast use vstd::std_specs::hash::group_hash_axioms;

/// Separates the base-3 keys of positions in a cache buffer.
///
/// This should be a value that is impossible to produce from any game state.
pub const BUFFER_DELIMIT: u32 = 1;

/// The widest band of scores a cache may hold: scores proper span
/// `MIN_SCORE ..= MAX_SCORE`, and the search briefly probes a few steps
/// beyond them.
pub const SCORE_CAP: i8 = 22;

/// A little-endian 32-bit word read out of a byte sequence.
pub open spec fn spec_le32(bytes: Seq<u8>, j: int) -> int {
    bytes[j] + 256 * bytes[j + 1] + 65536 * bytes[j + 2] + 16777216 * bytes[j + 3]
}

/// The contents of an opening book parsed from its buffer of 32-bit words:
/// group `k` of keys, delimited by `BUFFER_DELIMIT`, holds positions whose
/// score is `MIN_SCORE + k`; a delimiter closing the `MAX_SCORE` group ends
/// the book, and a buffer that runs out before that is invalid.
pub open spec fn spec_parse_book(bytes: Seq<u8>, i: int, score: int, acc: Map<u64, i8>) -> Option<
    Map<u64, i8>,
>
    decreases bytes.len() - 4 * i,
{
    if i < 0 || 1 + 4 * i + 4 > bytes.len() {
        None
    } else {
        let v = spec_le32(bytes, 1 + 4 * i);
        if v == BUFFER_DELIMIT {
            if score == MAX_SCORE {
                Some(acc)
            } else {
                spec_parse_book(bytes, i + 1, score + 1, acc)
            }
        } else {
            spec_parse_book(bytes, i + 1, score, acc.insert(v as u64, score as i8))
        }
    }
}

/// A cache associating keys and scores of previously-computed positions.
pub struct Cache {
    max_depth: u8,
    table: HashMap<u64, i8>,
}

impl Cache {
    /// The key-to-score map this cache holds.
    pub closed spec fn view(self) -> Map<u64, i8> {
        self.table@
    }

    /// The maximum depth of positions this cache covers.
    pub closed spec fn spec_max_depth(self) -> u8 {
        self.max_depth
    }

    /// Every stored score stays within the search's score band.
    #[verifier::type_invariant]
    spec fn inv(self) -> bool {
        forall|k: u64|
            self.table@.dom().contains(k) ==> -SCORE_CAP <= #[trigger] self.table@[k] <= SCORE_CAP
    }

    /// Creates an empty cache.
    pub fn new(max_depth: u8) -> (r: Cache)
        ensures
            r@ == Map::<u64, i8>::empty(),
            r.spec_max_depth() == max_depth,
    {
        Cache { max_depth, table: HashMap::new() }
    }

    /// Creates a cache from a vector of bytes, returning [`None`] if the
    /// bytes do not have the correct format.
    ///
    /// # Bytes Format
    /// - First byte: the maximum depth of the cache.
    /// - Remaining bytes: buffers of little-endian u32s, representing
    ///   base-3 keys. Each buffer is delimited by [`BUFFER_DELIMIT`] and is
    ///   associated with a score, starting from [`MIN_SCORE`] incrementing
    ///   up to [`MAX_SCORE`].
    pub fn from_bytes(bytes: Vec<u8>) -> (r: Option<Cache>)
        ensures
            match r {
                Some(cache) => {
                    &&& bytes@.len() >= 1
                    &&& cache.spec_max_depth() == bytes@[0]
                    &&& Some(cache@) == spec_parse_book(
                        bytes@,
                        0,
                        MIN_SCORE as int,
                        Map::<u64, i8>::empty(),
                    )
                },
                None => bytes@.len() == 0 || spec_parse_book(
                    bytes@,
                    0,
                    MIN_SCORE as int,
                    Map::<u64, i8>::empty(),
                ) is None,
            },
    {
        if bytes.len() == 0 {
            return None;
        }
        let max_depth: u8 = bytes[0];
        let mut cache: Cache = Cache::new(max_depth);
        let n: usize = bytes.len();
        let nchunks: usize = (n - 1) / 4;
        let mut score: i8 = MIN_SCORE;
        let mut i: usize = 0;
        while i < nchunks
            invariant
                n == bytes@.len(),
                1 <= n,
                nchunks == (n - 1) / 4,
                i <= nchunks,
                MIN_SCORE <= score <= MAX_SCORE,
                cache.spec_max_depth() == bytes@[0],
                spec_parse_book(bytes@, i as int, score as int, cache@) == spec_parse_book(
                    bytes@,
                    0,
                    MIN_SCORE as int,
                    Map::<u64, i8>::empty(),
                ),
            decreases nchunks - i,
        {
            proof {
                assert(4 * i + 5 <= n) by (nonlinear_arith)
                    requires
                        i < (n - 1) / 4,
                        n >= 1,
                ;
            }
            let j: usize = 1 + 4 * i;
            let key3: u32 = bytes[j] as u32 + 256 * (bytes[j + 1] as u32) + 65536 * (bytes[j + 2]
                as u32) + 16777216 * (bytes[j + 3] as u32);
            if key3 == BUFFER_DELIMIT {
                if score == MAX_SCORE {
                    return Some(cache);
                }
                score = score + 1;
            } else {
                cache.insert(key3 as u64, score);
            }
            i = i + 1;
        }
        proof {
            assert(4 * i + 5 > n) by (nonlinear_arith)
                requires
                    i >= (n - 1) / 4,
                    n >= 1,
            ;
        }
        None
    }

    /// Returns the score of a given position's key or [`None`] if the key
    /// does not exist in the cache.
    pub fn get(&self, key: &u64) -> (r: Option<i8>)
        ensures
            r == if self@.contains_key(*key) {
                Some(self@[*key])
            } else {
                None::<i8>
            },
            r is Some ==> -SCORE_CAP <= r->0 <= SCORE_CAP,
    {
        proof {
            use_type_invariant(self);
        }
        match self.table.get(key) {
            Some(v) => Some(*v),
            None => None,
        }
    }

    /// Inserts a position's key and its score as a key-value pair into the
    /// cache. Scores are signed game scores, and stay within the score band.
    pub fn insert(&mut self, key: u64, value: i8)
        requires
            -SCORE_CAP <= value <= SCORE_CAP,
        ensures
            final(self)@ == old(self)@.insert(key, value),
            final(self).spec_max_depth() == old(self).spec_max_depth(),
    {
        proof {
            use_type_invariant(&*self);
        }
        let mut table: HashMap<u64, i8> = HashMap::new();
        std::mem::swap(&mut table, &mut self.table);
        table.insert(key, value);
        self.table = table;
    }

    /// Clears the cache, removing all key-value pairs.
    pub fn clear(&mut self)
        ensures
            final(self)@ == Map::<u64, i8>::empty(),
            final(self).spec_max_depth() == old(self).spec_max_depth(),
    {
        let mut table: HashMap<u64, i8> = HashMap::new();
        std::mem::swap(&mut table, &mut self.table);
        table.clear();
        self.table = table;
    }

    /// Returns `true` if the cache is empty.
    pub fn is_empty(&self) -> (r: bool)
        ensures
            r == (self@.len() == 0),
    {
        self.table.is_empty()
    }

    /// Returns the number of elements in the cache.
    pub fn len(&self) -> (r: usize)
        ensures
            r == self@.len(),
    {
        self.table.len()
    }

    /// Returns the maximum depth of the cache for optimization purposes.
    pub fn max_depth(&self) -> (r: u8)
        ensures
            r == self.spec_max_depth(),
    {
        self.max_depth
    }
}

} // verus!
