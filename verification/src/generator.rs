use crate::piece::PieceClass;
use vstd::arithmetic::div_mod::lemma_fundamental_div_mod;
use vstd::multiset::Multiset;
use vstd::prelude::*;
use vstd::seq_lib::{
    lemma_multiset_commutative,
    to_multiset_build,
    to_multiset_contains,
    to_multiset_len,
    to_multiset_remove,
};

verus! {

/// Number of words of generator state, regenerated together in one batch.
pub const GEN_SIZE: usize = 624;

/// Lag between the two state words mixed by the twist.
pub const PERIOD: usize = 397;

/// First index whose twisted value reads an already twisted word.
pub const DIFF: usize = 227;

/// Constant folded into the twist of every odd state word.
pub const MAGIC: u32 = 0x9908B0DF;

/// One step of state-array seeding: the next word from the previous one.
pub open spec fn init_next(prev: u32, i: u32) -> u32 {
    0x6C078965u32.wrapping_mul(prev ^ (prev >> 30u32)).wrapping_add(i)
}

/// The `i`-th word of the freshly seeded state array.
pub open spec fn init_word(seed: u32, i: int) -> u32
    decreases i,
{
    if i <= 0 {
        seed
    } else {
        init_next(init_word(seed, i - 1), i as u32)
    }
}

/// The freshly seeded 624-word state array.
pub open spec fn init_state(seed: u32) -> Seq<u32> {
    Seq::new(624, |i: int| init_word(seed, i))
}

/// The twist of one state word: the upper bit of `a` joined with the lower
/// bits of `b`, shifted, conditionally mixed with `MAGIC`'s low bit, and
/// folded into `top`.
pub open spec fn twist_mix(top: u32, a: u32, b: u32) -> u32 {
    let y = (0x80000000u32 & a) | (0x7FFFFFFFu32 & b);
    top ^ (y >> 1u32) ^ (((y << 31u32) >> 31u32) & MAGIC)
}

/// The `i`-th word of the twisted state array.  Words from `DIFF` on read
/// words already twisted in the same batch, as the in-place pass does.
pub open spec fn twist_at(mt: Seq<u32>, i: int) -> u32
    decreases i,
{
    if i < 227 {
        twist_mix(mt[i + 397], mt[i], mt[i + 1])
    } else if i < 623 {
        twist_mix(twist_at(mt, i - 227), mt[i], mt[i + 1])
    } else {
        twist_mix(twist_at(mt, 396), mt[623], twist_at(mt, 0))
    }
}

/// The whole state array after one twist pass.
pub open spec fn twisted(mt: Seq<u32>) -> Seq<u32> {
    Seq::new(624, |i: int| twist_at(mt, i))
}

/// The tempering transform applied to each raw output word.
pub open spec fn temper(y: u32) -> u32 {
    let y1 = y ^ (y >> 11u32);
    let y2 = y1 ^ ((y1 << 7u32) & 0x9D2C5680u32);
    let y3 = y2 ^ ((y2 >> 15u32) & 0xEFC60000u32);
    y3 ^ (y3 << 18u32)
}

/// The tempered batch of a twisted state array.
pub open spec fn tempered_all(mt: Seq<u32>) -> Seq<u32> {
    Seq::new(624, |i: int| temper(mt[i]))
}

/// The mathematical model of the sequencer: generator state, tempered batch,
/// read index, the pending bag of piece kinds, and the per-kind draw counts.
#[verifier::ext_equal]
pub struct GenState {
    pub mt: Seq<u32>,
    pub tempered: Seq<u32>,
    pub index: int,
    pub bag: Seq<PieceClass>,
    pub stats: Seq<usize>,
}

pub open spec fn gen_wf(s: GenState) -> bool {
    &&& s.mt.len() == 624
    &&& s.tempered.len() == 624
    &&& 0 <= s.index <= 624
    &&& s.bag.len() <= 7
    &&& s.stats.len() == 7
}

/// The state after drawing one raw number: a fresh batch is twisted and
/// tempered first whenever the old batch is exhausted.
pub open spec fn num_step(s: GenState) -> GenState {
    if s.index == 624 {
        GenState { mt: twisted(s.mt), tempered: tempered_all(twisted(s.mt)), index: 1, ..s }
    } else {
        GenState { index: s.index + 1, ..s }
    }
}

/// The raw number drawn from state `s`.
pub open spec fn num_value(s: GenState) -> u32 {
    if s.index == 624 {
        tempered_all(twisted(s.mt))[0]
    } else {
        s.tempered[s.index]
    }
}

/// The seven kinds in the fixed order the bag decoder removes them from.
pub open spec fn all_kinds() -> Seq<PieceClass> {
    seq![
        PieceClass::I,
        PieceClass::O,
        PieceClass::T,
        PieceClass::S,
        PieceClass::Z,
        PieceClass::J,
        PieceClass::L,
    ]
}

/// The sequence with the element at `i` taken out, written by index so that
/// nested removals stay cheap to reason about.
pub open spec fn removed_at(s: Seq<PieceClass>, i: int) -> Seq<PieceClass> {
    Seq::new((s.len() - 1) as nat, |j: int| if j < i {
        s[j]
    } else {
        s[j + 1]
    })
}

/// The batch selected by six remove-at-index digits: each digit removes one
/// kind from the shrinking list, and the last kind remains.
pub open spec fn perm_of_digits(i6: int, i5: int, i4: int, i3: int, i2: int, i1: int) -> Seq<
    PieceClass,
> {
    let rem0 = all_kinds();
    let rem1 = removed_at(rem0, i6);
    let rem2 = removed_at(rem1, i5);
    let rem3 = removed_at(rem2, i4);
    let rem4 = removed_at(rem3, i3);
    let rem5 = removed_at(rem4, i2);
    let rem6 = removed_at(rem5, i1);
    seq![rem0[i6], rem1[i5], rem2[i4], rem3[i3], rem4[i2], rem5[i1], rem6[0]]
}

/// Decodes a raw number into a permutation of the seven kinds: the number
/// reduced modulo 7! is read as a factorial-base Lehmer code whose digits
/// select and remove kinds from a shrinking list; the last kind remains.
#[verifier::opaque]
pub open spec fn perm_seq(value: u32) -> Seq<PieceClass> {
    let v = (value % 5040) as int;
    let i6 = v / 720;
    let r6 = v % 720;
    let i5 = r6 / 120;
    let r5 = r6 % 120;
    let i4 = r5 / 24;
    let r4 = r5 % 24;
    let i3 = r4 / 6;
    let r3 = r4 % 6;
    let i2 = r3 / 2;
    let i1 = r3 % 2;
    perm_of_digits(i6, i5, i4, i3, i2, i1)
}

/// The position of each kind in the per-kind statistics array.
pub open spec fn class_index(c: PieceClass) -> int {
    match c {
        PieceClass::I => 0,
        PieceClass::O => 1,
        PieceClass::T => 2,
        PieceClass::S => 3,
        PieceClass::Z => 4,
        PieceClass::J => 5,
        PieceClass::L => 6,
    }
}

/// A draw count one higher, held at the usize limit.
pub open spec fn stat_inc(x: usize) -> usize {
    if x + 1 > usize::MAX {
        usize::MAX
    } else {
        (x + 1) as usize
    }
}

/// The state after an empty bag is refilled from the next raw number.
pub open spec fn refill(s: GenState) -> GenState {
    GenState { bag: perm_seq(num_value(s)), ..num_step(s) }
}

/// The kind drawn from state `s`: the last element of the bag, refilled
/// first if it is empty.
pub open spec fn class_value(s: GenState) -> PieceClass {
    if s.bag.len() == 0 {
        refill(s).bag.last()
    } else {
        s.bag.last()
    }
}

/// The state after one kind is drawn.
pub open spec fn class_step(s: GenState) -> GenState {
    let s1 = if s.bag.len() == 0 {
        refill(s)
    } else {
        s
    };
    let c = s1.bag.last();
    GenState {
        bag: s1.bag.drop_last(),
        stats: s1.stats.update(class_index(c), stat_inc(s1.stats[class_index(c)])),
        ..s1
    }
}

/// The sequence of the next `n` kinds drawn from state `s`.
pub open spec fn draws(s: GenState, n: nat) -> Seq<PieceClass>
    decreases n,
{
    if n == 0 {
        Seq::empty()
    } else {
        seq![class_value(s)] + draws(class_step(s), (n - 1) as nat)
    }
}

/// The state left after the next `n` kinds are drawn from state `s`.
pub open spec fn draws_state(s: GenState, n: nat) -> GenState
    decreases n,
{
    if n == 0 {
        s
    } else {
        draws_state(class_step(s), (n - 1) as nat)
    }
}

/// The state of a generator freshly seeded with `seed`.
pub open spec fn fresh_gen(seed: u32) -> GenState {
    GenState {
        mt: init_state(seed),
        tempered: Seq::new(624, |i: int| 0u32),
        index: 624,
        bag: Seq::empty(),
        stats: Seq::new(7, |i: int| 0usize),
    }
}

/// Produces the piece sequence: each batch of seven draws is a uniformly
/// chosen permutation of the seven kinds, driven by a 624-word, 397-lag
/// twisted pseudo-random generator that is bit-for-bit reproducible from
/// its seed.
pub struct PieceGenerator {
    pub mt: Vec<u32>,
    pub mt_tempered: Vec<u32>,
    pub index: usize,
    pub current_permutation: Vec<PieceClass>,
    pub stats: [usize; 7],
}

impl View for PieceGenerator {
    type V = GenState;

    open spec fn view(&self) -> GenState {
        GenState {
            mt: self.mt@,
            tempered: self.mt_tempered@,
            index: self.index as int,
            bag: self.current_permutation@,
            stats: self.stats@,
        }
    }
}

impl PieceGenerator {
    /// A generator seeded with an explicit value, for deterministic replay.
    pub fn new(seed: u32) -> (r: PieceGenerator)
        ensures
            r@ == fresh_gen(seed),
            gen_wf(r@),
    {
        let mt = seed_state(seed);
        let mt_tempered = zero_state();
        let r = PieceGenerator {
            mt,
            mt_tempered,
            index: GEN_SIZE,
            current_permutation: Vec::with_capacity(7),
            stats: [0usize; 7],
        };
        proof {
            assert(r@.stats =~= fresh_gen(seed).stats);
            assert(r@ =~= fresh_gen(seed));
        }
        r
    }

    /// A generator seeded from the wall clock, for ordinary play.
    pub fn from_time() -> (r: PieceGenerator)
        ensures
            exists|seed: u32| r@ == fresh_gen(seed),
            gen_wf(r@),
    {
        let seed = current_millis_seed();
        let r = PieceGenerator::new(seed);
        proof {
            assert(r@ == fresh_gen(seed));
        }
        r
    }

    /// Regenerates the whole 624-word batch in place: one twist pass over
    /// the state array, then the tempering transform on each word.
    #[verifier::loop_isolation(false)]
    pub fn generate_numbers(&mut self)
        requires
            old(self).mt@.len() == 624,
            old(self).mt_tempered@.len() == 624,
        ensures
            final(self)@ == (GenState {
                mt: twisted(old(self).mt@),
                tempered: tempered_all(twisted(old(self).mt@)),
                index: 0,
                ..old(self)@
            }),
    {
        let mut i: usize = 0;
        while i < DIFF
            invariant
                i <= 227,
                forall|j: int| 0 <= j < i ==> self.mt@[j] == #[trigger] twist_at(old(self).mt@, j),
                forall|j: int| i <= j < 624 ==> self.mt@[j] == #[trigger] old(self).mt@[j],
                self.mt@.len() == 624,
                self.mt_tempered == old(self).mt_tempered,
                self.index == old(self).index,
                self.current_permutation == old(self).current_permutation,
                self.stats == old(self).stats,
            decreases 227 - i,
        {
            let y = (0x80000000u32 & self.mt[i]) | (0x7FFFFFFFu32 & self.mt[i + 1]);
            let w = self.mt[i + PERIOD] ^ (y >> 1u32) ^ (((y << 31u32) >> 31u32) & MAGIC);
            self.mt.set(i, w);
            proof {
                assert(self.mt@[i as int] == twist_at(old(self).mt@, i as int));
            }
            i = i + 1;
        }
        while i < GEN_SIZE - 1
            invariant
                227 <= i <= 623,
                forall|j: int| 0 <= j < i ==> self.mt@[j] == #[trigger] twist_at(old(self).mt@, j),
                forall|j: int| i <= j < 624 ==> self.mt@[j] == #[trigger] old(self).mt@[j],
                self.mt@.len() == 624,
                self.mt_tempered == old(self).mt_tempered,
                self.index == old(self).index,
                self.current_permutation == old(self).current_permutation,
                self.stats == old(self).stats,
            decreases 623 - i,
        {
            let y = (0x80000000u32 & self.mt[i]) | (0x7FFFFFFFu32 & self.mt[i + 1]);
            let w = self.mt[i - DIFF] ^ (y >> 1u32) ^ (((y << 31u32) >> 31u32) & MAGIC);
            self.mt.set(i, w);
            proof {
                let m0 = old(self).mt@;
                let ii = i as int;
                assert(y == ((0x80000000u32 & m0[ii]) | (0x7FFFFFFFu32 & m0[ii + 1])));
                assert(self.mt@[ii] == twist_mix(twist_at(m0, ii - 227), m0[ii], m0[ii + 1]));
                assert(twist_at(m0, ii) == twist_mix(twist_at(m0, ii - 227), m0[ii], m0[ii + 1]));
            }
            i = i + 1;
        }
        let y = (0x80000000u32 & self.mt[GEN_SIZE - 1]) | (0x7FFFFFFFu32 & self.mt[0]);
        let w = self.mt[PERIOD - 1] ^ (y >> 1u32) ^ (((y << 31u32) >> 31u32) & MAGIC);
        self.mt.set(GEN_SIZE - 1, w);
        proof {
            let m0 = old(self).mt@;
            assert(y == ((0x80000000u32 & m0[623]) | (0x7FFFFFFFu32 & twist_at(m0, 0))));
            assert(self.mt@[623] == twist_mix(twist_at(m0, 396), m0[623], twist_at(m0, 0)));
            assert(twist_at(m0, 623) == twist_mix(twist_at(m0, 396), m0[623], twist_at(m0, 0)));
            assert(self.mt@ =~= twisted(old(self).mt@));
        }
        let ghost m2 = self.mt@;
        let mut k: usize = 0;
        while k < GEN_SIZE
            invariant
                k <= 624,
                self.mt@ == m2,
                self.mt_tempered@.len() == 624,
                forall|j: int| 0 <= j < k ==> self.mt_tempered@[j] == temper(#[trigger] m2[j]),
                self.index == old(self).index,
                self.current_permutation == old(self).current_permutation,
                self.stats == old(self).stats,
            decreases 624 - k,
        {
            let mut y = self.mt[k];
            y = y ^ (y >> 11u32);
            y = y ^ ((y << 7u32) & 0x9D2C5680u32);
            y = y ^ ((y >> 15u32) & 0xEFC60000u32);
            y = y ^ (y << 18u32);
            self.mt_tempered.set(k, y);
            proof {
                assert(self.mt_tempered@[k as int] == temper(m2[k as int]));
            }
            k = k + 1;
        }
        self.index = 0;
        proof {
            assert(self.mt_tempered@ =~= tempered_all(twisted(old(self).mt@)));
            assert(final(self)@ =~= (GenState {
                mt: twisted(old(self).mt@),
                tempered: tempered_all(twisted(old(self).mt@)),
                index: 0,
                ..old(self)@
            }));
        }
    }

    /// Draws one raw 32-bit number, regenerating the batch when exhausted.
    pub fn next_number(&mut self) -> (r: u32)
        requires
            gen_wf(old(self)@),
        ensures
            r == num_value(old(self)@),
            final(self)@ == num_step(old(self)@),
            gen_wf(final(self)@),
    {
        if self.index == GEN_SIZE {
            self.generate_numbers();
        }
        self.index = self.index + 1;
        self.mt_tempered[self.index - 1]
    }

    /// Refills the empty bag with the next uniformly drawn permutation of
    /// the seven kinds, decoded from one raw number.
    pub fn generate_permutation(&mut self)
        requires
            gen_wf(old(self)@),
            old(self)@.bag.len() == 0,
        ensures
            final(self)@ == refill(old(self)@),
            gen_wf(final(self)@),
    {
        let r0 = self.next_number();
        self.current_permutation = decode_batch(r0);
        proof {
            lemma_perm_seq_len(r0);
            assert(final(self)@ =~= refill(old(self)@));
        }
    }

    /// Draws the next piece kind: pops the bag, refilling it first when it
    /// is empty, and counts the draw in the per-kind statistics.
    pub fn next_piece_class(&mut self) -> (r: PieceClass)
        requires
            gen_wf(old(self)@),
        ensures
            r == class_value(old(self)@),
            final(self)@ == class_step(old(self)@),
            gen_wf(final(self)@),
    {
        if self.current_permutation.len() == 0 {
            self.generate_permutation();
        }
        let ghost s1 = if old(self)@.bag.len() == 0 {
            refill(old(self)@)
        } else {
            old(self)@
        };
        proof {
            lemma_perm_seq_len(num_value(old(self)@));
            assert(self@ == s1);
            assert(s1.bag.len() > 0);
        }
        let c = match self.current_permutation.pop() {
            Some(c) => c,
            None => PieceClass::I,
        };
        let i = class_stat_index(c);
        self.stats[i] = self.stats[i].saturating_add(1);
        proof {
            assert(self.current_permutation@ =~= s1.bag.drop_last());
            assert(self.stats@ =~= s1.stats.update(
                class_index(c),
                stat_inc(s1.stats[class_index(c)]),
            ));
            assert(final(self)@ =~= class_step(old(self)@));
        }
        c
    }

    /// Per-kind draw counts, for the statistics display.
    pub fn stats(&self) -> (r: &[usize; 7])
        ensures
            r@ == self@.stats,
    {
        &self.stats
    }
}

/// Removes and returns the element at `i`, shifting the rest left.
fn remove_at(v: &mut Vec<PieceClass>, i: usize) -> (c: PieceClass)
    requires
        i < old(v)@.len(),
    ensures
        c == old(v)@[i as int],
        final(v)@ == removed_at(old(v)@, i as int),
{
    let c = v.remove(i);
    proof {
        assert(v@ =~= removed_at(old(v)@, i as int));
    }
    c
}

/// Picks the batch selected by six bounded remove-at-index digits.
#[verifier::rlimit(100)]
#[verifier::spinoff_prover]
fn pick_batch(
    index_6: usize,
    index_5: usize,
    index_4: usize,
    index_3: usize,
    index_2: usize,
    index_1: usize,
) -> (bag: Vec<PieceClass>)
    requires
        index_6 < 7,
        index_5 < 6,
        index_4 < 5,
        index_3 < 4,
        index_2 < 3,
        index_1 < 2,
    ensures
        bag@ == perm_of_digits(
            index_6 as int,
            index_5 as int,
            index_4 as int,
            index_3 as int,
            index_2 as int,
            index_1 as int,
        ),
{
    let mut remaining: Vec<PieceClass> = Vec::with_capacity(7);
    remaining.push(PieceClass::I);
    remaining.push(PieceClass::O);
    remaining.push(PieceClass::T);
    remaining.push(PieceClass::S);
    remaining.push(PieceClass::Z);
    remaining.push(PieceClass::J);
    remaining.push(PieceClass::L);
    proof {
        assert(remaining@ =~= all_kinds());
    }
    let ghost d6 = index_6 as int;
    let ghost d5 = index_5 as int;
    let ghost d4 = index_4 as int;
    let ghost d3 = index_3 as int;
    let ghost d2 = index_2 as int;
    let ghost d1 = index_1 as int;
    let ghost rem0 = all_kinds();
    let ghost rem1 = removed_at(rem0, d6);
    let ghost rem2 = removed_at(rem1, d5);
    let ghost rem3 = removed_at(rem2, d4);
    let ghost rem4 = removed_at(rem3, d3);
    let ghost rem5 = removed_at(rem4, d2);
    let ghost rem6 = removed_at(rem5, d1);
    let mut bag: Vec<PieceClass> = Vec::with_capacity(7);
    let c6 = remove_at(&mut remaining, index_6);
    bag.push(c6);
    proof {
        assert(remaining@ == rem1 && c6 == rem0[d6]);
    }
    let c5 = remove_at(&mut remaining, index_5);
    bag.push(c5);
    proof {
        assert(remaining@ == rem2 && c5 == rem1[d5]);
    }
    let c4 = remove_at(&mut remaining, index_4);
    bag.push(c4);
    proof {
        assert(remaining@ == rem3 && c4 == rem2[d4]);
    }
    let c3 = remove_at(&mut remaining, index_3);
    bag.push(c3);
    proof {
        assert(remaining@ == rem4 && c3 == rem3[d3]);
    }
    let c2 = remove_at(&mut remaining, index_2);
    bag.push(c2);
    proof {
        assert(remaining@ == rem5 && c2 == rem4[d2]);
    }
    let c1 = remove_at(&mut remaining, index_1);
    bag.push(c1);
    proof {
        assert(remaining@ == rem6 && c1 == rem5[d1]);
    }
    let c0 = remove_at(&mut remaining, 0);
    bag.push(c0);
    proof {
        assert(c0 == rem6[0]);
        assert(bag@ == seq![c6].push(c5).push(c4).push(c3).push(c2).push(c1).push(c0));
        assert(perm_of_digits(d6, d5, d4, d3, d2, d1) == seq![
            rem0[d6],
            rem1[d5],
            rem2[d4],
            rem3[d3],
            rem4[d2],
            rem5[d1],
            rem6[0],
        ]);
        assert(bag@ =~= perm_of_digits(d6, d5, d4, d3, d2, d1));
    }
    bag
}

/// Decodes one raw number into the next batch: a permutation of the seven
/// kinds, chosen by factorial-base remove-at-index digits.
#[verifier::spinoff_prover]
fn decode_batch(r0: u32) -> (bag: Vec<PieceClass>)
    ensures
        bag@ == perm_seq(r0),
{
    let v0 = r0 % 5040;
    proof {
        lemma_decode_step(v0 as int, 720, 7);
    }
    let index_6 = v0 / 720;
    let v1 = v0 - index_6 * 720;
    proof {
        lemma_decode_step(v1 as int, 120, 6);
    }
    let index_5 = v1 / 120;
    let v2 = v1 - index_5 * 120;
    proof {
        lemma_decode_step(v2 as int, 24, 5);
    }
    let index_4 = v2 / 24;
    let v3 = v2 - index_4 * 24;
    proof {
        lemma_decode_step(v3 as int, 6, 4);
    }
    let index_3 = v3 / 6;
    let v4 = v3 - index_3 * 6;
    proof {
        lemma_decode_step(v4 as int, 2, 3);
    }
    let index_2 = v4 / 2;
    let index_1 = v4 - index_2 * 2;
    proof {
        lemma_exec_digits(
            r0,
            v0 as int,
            v1 as int,
            v2 as int,
            v3 as int,
            v4 as int,
            index_6 as int,
            index_5 as int,
            index_4 as int,
            index_3 as int,
            index_2 as int,
            index_1 as int,
        );
    }
    pick_batch(
        index_6 as usize,
        index_5 as usize,
        index_4 as usize,
        index_3 as usize,
        index_2 as usize,
        index_1 as usize,
    )
}

/// The statistics slot of a kind.
fn class_stat_index(c: PieceClass) -> (i: usize)
    ensures
        i as int == class_index(c),
        i < 7,
{
    match c {
        PieceClass::I => 0,
        PieceClass::O => 1,
        PieceClass::T => 2,
        PieceClass::S => 3,
        PieceClass::Z => 4,
        PieceClass::J => 5,
        PieceClass::L => 6,
    }
}

/// Law support: every decoded batch is a permutation of the seven kinds:
/// seven entries, each kind exactly once, whatever number was drawn.
/// A decoded batch always holds seven entries.
pub proof fn lemma_perm_seq_len(value: u32)
    ensures
        perm_seq(value).len() == 7,
{
    reveal(perm_seq);
    assert(perm_seq(value).len() == 7);
}

/// Removing one element and putting it back leaves a list's multiset as it
/// was.
proof fn lemma_remove_one(s: Seq<PieceClass>, i: int)
    requires
        0 <= i < s.len(),
    ensures
        s.to_multiset() == removed_at(s, i).to_multiset().insert(s[i]),
{
    broadcast use vstd::multiset::group_multiset_axioms;

    assert(s.remove(i) =~= removed_at(s, i));
    to_multiset_remove(s, i);
    to_multiset_contains(s, s[i]);
    assert(s.contains(s[i]));
    assert(s.to_multiset() =~= s.remove(i).to_multiset().insert(s[i]));
}

/// The decoder's running remainders and quotients are exactly the
/// factorial-base digits that select the batch.
#[verifier::spinoff_prover]
proof fn lemma_exec_digits(
    value: u32,
    v0: int,
    v1: int,
    v2: int,
    v3: int,
    v4: int,
    d6: int,
    d5: int,
    d4: int,
    d3: int,
    d2: int,
    d1: int,
)
    requires
        v0 == value % 5040,
        d6 == v0 / 720,
        v1 == v0 - d6 * 720,
        d5 == v1 / 120,
        v2 == v1 - d5 * 120,
        d4 == v2 / 24,
        v3 == v2 - d4 * 24,
        d3 == v3 / 6,
        v4 == v3 - d3 * 6,
        d2 == v4 / 2,
        d1 == v4 - d2 * 2,
    ensures
        perm_seq(value) == perm_of_digits(d6, d5, d4, d3, d2, d1),
        0 <= d6 < 7,
        0 <= d5 < 6,
        0 <= d4 < 5,
        0 <= d3 < 4,
        0 <= d2 < 3,
        0 <= d1 < 2,
{
    reveal(perm_seq);
    lemma_decode_step(v0, 720, 7);
    lemma_decode_step(v1, 120, 6);
    lemma_decode_step(v2, 24, 5);
    lemma_decode_step(v3, 6, 4);
    lemma_decode_step(v4, 2, 3);
}

/// Removing the chosen kind at each of the six steps accounts for the whole
/// list as a multiset.
proof fn lemma_chain_removes(i6: int, i5: int, i4: int, i3: int, i2: int, i1: int)
    requires
        0 <= i6 < 7,
        0 <= i5 < 6,
        0 <= i4 < 5,
        0 <= i3 < 4,
        0 <= i2 < 3,
        0 <= i1 < 2,
    ensures
        ({
            let rem0 = all_kinds();
            let rem1 = removed_at(rem0, i6);
            let rem2 = removed_at(rem1, i5);
            let rem3 = removed_at(rem2, i4);
            let rem4 = removed_at(rem3, i3);
            let rem5 = removed_at(rem4, i2);
            let rem6 = removed_at(rem5, i1);
            all_kinds().to_multiset() == rem6.to_multiset().insert(rem5[i1]).insert(
                rem4[i2],
            ).insert(rem3[i3]).insert(rem2[i4]).insert(rem1[i5]).insert(rem0[i6])
        }),
{
    let rem0 = all_kinds();
    let rem1 = removed_at(rem0, i6);
    let rem2 = removed_at(rem1, i5);
    let rem3 = removed_at(rem2, i4);
    let rem4 = removed_at(rem3, i3);
    let rem5 = removed_at(rem4, i2);
    lemma_remove_one(rem0, i6);
    lemma_remove_one(rem1, i5);
    lemma_remove_one(rem2, i4);
    lemma_remove_one(rem3, i3);
    lemma_remove_one(rem4, i2);
    lemma_remove_one(rem5, i1);
}

/// A seven-element list is, as a multiset, its elements inserted in order.
proof fn lemma_build_multiset(
    a0: PieceClass,
    a1: PieceClass,
    a2: PieceClass,
    a3: PieceClass,
    a4: PieceClass,
    a5: PieceClass,
    a6: PieceClass,
)
    ensures
        seq![a0, a1, a2, a3, a4, a5, a6].to_multiset()
            == Seq::<PieceClass>::empty().to_multiset().insert(a0).insert(a1).insert(a2).insert(
            a3,
        ).insert(a4).insert(a5).insert(a6),
{
    let e0 = Seq::<PieceClass>::empty();
    let p = seq![a0, a1, a2, a3, a4, a5, a6];
    to_multiset_build(e0, a0);
    to_multiset_build(e0.push(a0), a1);
    to_multiset_build(e0.push(a0).push(a1), a2);
    to_multiset_build(e0.push(a0).push(a1).push(a2), a3);
    to_multiset_build(e0.push(a0).push(a1).push(a2).push(a3), a4);
    to_multiset_build(e0.push(a0).push(a1).push(a2).push(a3).push(a4), a5);
    to_multiset_build(e0.push(a0).push(a1).push(a2).push(a3).push(a4).push(a5), a6);
    assert(p =~= e0.push(a0).push(a1).push(a2).push(a3).push(a4).push(a5).push(a6));
}

/// The order of insertions into a multiset does not matter.
proof fn lemma_insert_commutes(
    m: Multiset<PieceClass>,
    a0: PieceClass,
    a1: PieceClass,
    a2: PieceClass,
    a3: PieceClass,
    a4: PieceClass,
    a5: PieceClass,
    a6: PieceClass,
)
    ensures
        m.insert(a0).insert(a1).insert(a2).insert(a3).insert(a4).insert(a5).insert(a6) == m.insert(
            a6,
        ).insert(a5).insert(a4).insert(a3).insert(a2).insert(a1).insert(a0),
{
    broadcast use vstd::multiset::group_multiset_axioms;

    assert(m.insert(a0).insert(a1).insert(a2).insert(a3).insert(a4).insert(a5).insert(a6)
        =~= m.insert(a6).insert(a5).insert(a4).insert(a3).insert(a2).insert(a1).insert(a0));
}

/// The multiset bookkeeping of the shrinking-list decode: removing six kinds
/// one by one and listing them with the last survivor reproduces the whole
/// list as a multiset.
proof fn lemma_removal_chain(i6: int, i5: int, i4: int, i3: int, i2: int, i1: int)
    requires
        0 <= i6 < 7,
        0 <= i5 < 6,
        0 <= i4 < 5,
        0 <= i3 < 4,
        0 <= i2 < 3,
        0 <= i1 < 2,
    ensures
        perm_of_digits(i6, i5, i4, i3, i2, i1).to_multiset() == all_kinds().to_multiset(),
        perm_of_digits(i6, i5, i4, i3, i2, i1).len() == 7,
{
    let rem0 = all_kinds();
    let rem1 = removed_at(rem0, i6);
    let rem2 = removed_at(rem1, i5);
    let rem3 = removed_at(rem2, i4);
    let rem4 = removed_at(rem3, i3);
    let rem5 = removed_at(rem4, i2);
    let rem6 = removed_at(rem5, i1);
    let a0 = rem0[i6];
    let a1 = rem1[i5];
    let a2 = rem2[i4];
    let a3 = rem3[i3];
    let a4 = rem4[i2];
    let a5 = rem5[i1];
    let a6 = rem6[0];
    let p = perm_of_digits(i6, i5, i4, i3, i2, i1);
    assert(p == seq![a0, a1, a2, a3, a4, a5, a6]);
    let e0 = Seq::<PieceClass>::empty();
    assert(rem6 =~= e0.push(a6));
    to_multiset_build(e0, a6);
    lemma_chain_removes(i6, i5, i4, i3, i2, i1);
    lemma_build_multiset(a0, a1, a2, a3, a4, a5, a6);
    lemma_insert_commutes(e0.to_multiset(), a0, a1, a2, a3, a4, a5, a6);
}

/// A list holding the same multiset as the kind catalog holds each kind
/// exactly once.
proof fn lemma_bag_counts(p: Seq<PieceClass>)
    requires
        p.to_multiset() == all_kinds().to_multiset(),
    ensures
        p.len() == 7,
        forall|c: PieceClass| p.to_multiset().count(c) == 1,
        p.no_duplicates(),
{
    to_multiset_len(p);
    to_multiset_len(all_kinds());
    assert(all_kinds().no_duplicates());
    all_kinds().lemma_multiset_has_no_duplicates();
    assert forall|c: PieceClass| p.to_multiset().count(c) == 1 by {
        assert(0 <= class_index(c) < 7);
        assert(all_kinds()[class_index(c)] == c);
        assert(all_kinds().contains(c));
        to_multiset_contains(all_kinds(), c);
        assert(all_kinds().to_multiset().count(c) == 1);
    }
    p.lemma_multiset_has_no_duplicates_conv();
}

/// Law support: every decoded batch is a permutation of the seven kinds:
/// seven entries, each kind exactly once, whatever number was drawn.
pub proof fn lemma_perm_seq_is_bag(value: u32)
    ensures
        perm_seq(value).len() == 7,
        perm_seq(value).to_multiset() == all_kinds().to_multiset(),
        forall|c: PieceClass| perm_seq(value).to_multiset().count(c) == 1,
        perm_seq(value).no_duplicates(),
{
    let v0 = (value % 5040) as int;
    let d6 = v0 / 720;
    let v1 = v0 % 720;
    let d5 = v1 / 120;
    let v2 = v1 % 120;
    let d4 = v2 / 24;
    let v3 = v2 % 24;
    let d3 = v3 / 6;
    let v4 = v3 % 6;
    let d2 = v4 / 2;
    let d1 = v4 % 2;
    lemma_decode_step(v0, 720, 7);
    lemma_decode_step(v1, 120, 6);
    lemma_decode_step(v2, 24, 5);
    lemma_decode_step(v3, 6, 4);
    lemma_decode_step(v4, 2, 3);
    lemma_exec_digits(value, v0, v1, v2, v3, v4, d6, d5, d4, d3, d2, d1);
    lemma_removal_chain(d6, d5, d4, d3, d2, d1);
    lemma_bag_counts(perm_seq(value));
}

/// One draw keeps the generator state well formed.
pub proof fn lemma_class_step_wf(s: GenState)
    requires
        gen_wf(s),
    ensures
        gen_wf(class_step(s)),
        class_step(s).bag == (if s.bag.len() == 0 {
            perm_seq(num_value(s)).drop_last()
        } else {
            s.bag.drop_last()
        }),
{
    lemma_perm_seq_len(num_value(s));
}

/// Drawing out a bag of `n` kinds yields exactly those kinds and leaves the
/// bag empty.
pub proof fn lemma_draws_of_bag(s: GenState, n: nat)
    requires
        gen_wf(s),
        s.bag.len() == n,
    ensures
        draws(s, n).to_multiset() == s.bag.to_multiset(),
        draws_state(s, n).bag.len() == 0,
        gen_wf(draws_state(s, n)),
    decreases n,
{
    broadcast use vstd::multiset::group_multiset_axioms;

    if n == 0 {
        assert(draws(s, 0) =~= Seq::<PieceClass>::empty());
        assert(s.bag =~= Seq::<PieceClass>::empty());
        assert(draws(s, 0) == s.bag);
    } else {
        let s2 = class_step(s);
        lemma_class_step_wf(s);
        assert(s2.bag == s.bag.drop_last());
        lemma_draws_of_bag(s2, (n - 1) as nat);
        lemma_multiset_commutative(seq![class_value(s)], draws(s2, (n - 1) as nat));
        assert(draws(s, n) == seq![class_value(s)] + draws(s2, (n - 1) as nat));
        assert(class_value(s) == s.bag.last());
        let e0 = Seq::<PieceClass>::empty();
        assert(s.bag =~= s.bag.drop_last().push(s.bag.last()));
        to_multiset_build(s.bag.drop_last(), s.bag.last());
        assert(seq![class_value(s)] =~= e0.push(class_value(s)));
        to_multiset_build(e0, class_value(s));
        to_multiset_len(e0);
        vstd::multiset::lemma_multiset_empty_len(e0.to_multiset());
        assert(draws(s, n).to_multiset() =~= s.bag.to_multiset());
    }
}

/// Law: from any state whose bag is empty, as at the start of play and again
/// after every complete batch, the next seven draws contain each of the
/// seven kinds exactly once, for every seed and every reachable state; the
/// bag is empty again afterwards, so every aligned window of seven draws is
/// such a batch.
pub proof fn lemma_bag_window(s: GenState)
    requires
        gen_wf(s),
        s.bag.len() == 0,
    ensures
        draws(s, 7).len() == 7,
        forall|c: PieceClass| draws(s, 7).to_multiset().count(c) == 1,
        draws_state(s, 7).bag.len() == 0,
        gen_wf(draws_state(s, 7)),
{
    broadcast use vstd::multiset::group_multiset_axioms;

    let s2 = class_step(s);
    lemma_class_step_wf(s);
    let p = perm_seq(num_value(s));
    lemma_perm_seq_is_bag(num_value(s));
    assert(s2.bag == p.drop_last());
    assert(class_value(s) == p.last());
    lemma_draws_of_bag(s2, 6);
    lemma_multiset_commutative(seq![class_value(s)], draws(s2, 6));
    assert(draws(s, 7) == seq![class_value(s)] + draws(s2, 6));
    let e0 = Seq::<PieceClass>::empty();
    assert(p =~= p.drop_last().push(p.last()));
    to_multiset_build(p.drop_last(), p.last());
    assert(seq![class_value(s)] =~= e0.push(class_value(s)));
    to_multiset_build(e0, class_value(s));
    to_multiset_len(e0);
    vstd::multiset::lemma_multiset_empty_len(e0.to_multiset());
    assert(draws(s, 7).to_multiset() =~= p.to_multiset());
    to_multiset_len(draws(s, 7));
    to_multiset_len(p);
    assert(draws_state(s, 7) == draws_state(s2, 6));
}


/// The freshly seeded state array, one word at a time from the seed.
#[verifier::loop_isolation(false)]
fn seed_state(seed: u32) -> (mt: Vec<u32>)
    ensures
        mt@ == init_state(seed),
{
    let mut mt: Vec<u32> = Vec::with_capacity(GEN_SIZE);
    mt.push(seed);
    let mut i: usize = 1;
    while i < GEN_SIZE
        invariant
            1 <= i <= 624,
            mt@.len() == i,
            forall|j: int| 0 <= j < i ==> (#[trigger] mt@[j]) == init_word(seed, j),
        decreases 624 - i,
    {
        let prev = mt[i - 1];
        mt.push(0x6C078965u32.wrapping_mul(prev ^ (prev >> 30u32)).wrapping_add(i as u32));
        proof {
            assert(mt@[i as int] == init_word(seed, i as int));
        }
        i = i + 1;
    }
    proof {
        assert(mt@ =~= init_state(seed));
    }
    mt
}

/// A zeroed batch buffer.
#[verifier::loop_isolation(false)]
fn zero_state() -> (v: Vec<u32>)
    ensures
        v@ == Seq::new(624, |i: int| 0u32),
{
    let mut v: Vec<u32> = Vec::with_capacity(GEN_SIZE);
    let mut k: usize = 0;
    while k < GEN_SIZE
        invariant
            k <= 624,
            v@.len() == k,
            forall|j: int| 0 <= j < k ==> v@[j] == 0u32,
        decreases 624 - k,
    {
        v.push(0);
        k = k + 1;
    }
    proof {
        assert(v@ =~= Seq::new(624, |i: int| 0u32));
    }
    v
}

/// Relies on std::time::SystemTime for the wall-clock milliseconds that seed
/// ordinary play; the value depends on the clock, so nothing is stated about
/// which seed comes back.
#[verifier::external_body]
fn current_millis_seed() -> u32 {
    match std::time::SystemTime::now().duration_since(std::time::SystemTime::UNIX_EPOCH) {
        Ok(d) => (d.as_millis() & 0xFFFFFFFF) as u32,
        Err(_) => 0,
    }
}

/// A division step of the factorial-base decode: with `0 <= value < k * d`,
/// the quotient is a valid remove index below `k` and the subtraction the
/// decoder performs leaves exactly the remainder.
proof fn lemma_decode_step(value: int, d: int, k: int)
    requires
        0 < d,
        0 <= value < k * d,
    ensures
        0 <= value / d < k,
        d * (value / d) <= value,
        value - d * (value / d) == value % d,
        0 <= value % d < d,
{
    lemma_fundamental_div_mod(value, d);
    assert(value / d < k) by (nonlinear_arith)
        requires
            0 < d,
            0 <= value < k * d,
            value == d * (value / d) + value % d,
            0 <= value % d < d,
    ;
    assert(d * (value / d) <= value);
}

} // verus!
