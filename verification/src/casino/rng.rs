//! Deterministic random stream for the casino games.
//!
//! The stream is a SHA-256 hash chain: a 32-byte state is read byte by byte,
//! and once exhausted it is replaced by its own digest. Everything a game draws
//! (bounded values, cards, dice, shuffles) is a function of that stream, and the
//! contracts below state exactly which bytes of the stream each draw consumes.

use super::common::{u32_be_bytes, u64_be_bytes};
use commonware_cryptography::{Hasher, Sha256};
use vstd::prelude::*;

verus! {

broadcast use vstd::seq_lib::group_to_multiset_ensures;

/// The SHA-256 digest of a byte string.
pub uninterp spec fn spec_sha256(data: Seq<u8>) -> Seq<u8>;

/// Hashes `data` with `commonware_cryptography::Sha256::hash` (one part).
/// The contract claims only that the returned digest is the SHA-256 of the
/// bytes handed in; its length, 32, comes from the return type.
#[verifier::external_body]
fn sha256(data: &[u8]) -> (digest: [u8; 32])
    ensures
        digest@ == spec_sha256(data@),
{
    Sha256::hash(&[data]).0
}

/// Swaps two elements of a slice with `<[T]>::swap`, which exchanges the
/// elements at the two indices and panics when either is out of bounds.
#[verifier::external_body]
fn slice_swap<T>(s: &mut [T], a: usize, b: usize)
    requires
        a < old(s)@.len(),
        b < old(s)@.len(),
    ensures
        final(s)@ == old(s)@.update(a as int, old(s)@[b as int]).update(b as int, old(s)@[a as int]),
{
    s.swap(a, b)
}

/// A point of the random stream: the 32-byte hash state and the read index.
pub type RngPoint = (Seq<u8>, int);

/// The byte the stream yields next from a point.
pub open spec fn rng_head(p: RngPoint) -> u8 {
    if p.1 >= 32 {
        spec_sha256(p.0)[0]
    } else {
        p.0[p.1]
    }
}

/// The point the stream reaches after yielding one byte.
pub open spec fn rng_step(p: RngPoint) -> RngPoint {
    if p.1 >= 32 {
        (spec_sha256(p.0), 1)
    } else {
        (p.0, p.1 + 1)
    }
}

/// The point reached after `k` bytes.
pub open spec fn rng_advance(p: RngPoint, k: nat) -> RngPoint
    decreases k,
{
    if k == 0 {
        p
    } else {
        rng_step(rng_advance(p, (k - 1) as nat))
    }
}

/// The `k`-th byte of the stream from a point (counting from 0).
pub open spec fn rng_byte(p: RngPoint, k: nat) -> u8 {
    rng_head(rng_advance(p, k))
}

/// Rejection threshold for drawing a value below `max`: bytes at or above it
/// are rejected so that the accepted bytes spread evenly over `0..max`.
pub open spec fn rejection_limit(max: u8) -> u8 {
    (255int - (255int % (max as int))) as u8
}

/// Largest number of bytes one bounded draw reads.
pub open spec fn max_draw_rounds() -> nat {
    u64::MAX as nat
}

/// Byte `k` is the first byte below `limit` in the stream from `p`.
pub open spec fn first_accepted(p: RngPoint, limit: u8, k: nat) -> bool {
    &&& rng_byte(p, k) < limit
    &&& forall|j: nat| j < k ==> rng_byte(p, j) >= limit
}

/// Index of the byte a bounded draw keeps: the first byte below `limit`, or
/// the last byte read when none of the first `max_draw_rounds()` bytes is.
pub open spec fn accepted_index(p: RngPoint, limit: u8) -> nat {
    if exists|k: nat| k < max_draw_rounds() && first_accepted(p, limit, k) {
        choose|k: nat| k < max_draw_rounds() && first_accepted(p, limit, k)
    } else {
        (max_draw_rounds() - 1) as nat
    }
}

/// Value and next point of a draw from `0..max` (0 and no bytes read when `max` is 0).
pub open spec fn bounded_draw(p: RngPoint, max: u8) -> (u8, RngPoint) {
    if max == 0 {
        (0, p)
    } else {
        let k = accepted_index(p, rejection_limit(max));
        ((rng_byte(p, k) % max) as u8, rng_advance(p, k + 1))
    }
}

/// One card drawn from a non-empty deck: the card at a position drawn from
/// `0..len` (the length taken modulo 256), the deck with that position
/// swap-removed, and the stream point after the draw.
pub open spec fn card_draw(deck: Seq<u8>, p: RngPoint) -> (u8, Seq<u8>, RngPoint) {
    let d = bounded_draw(p, (deck.len() % 256) as u8);
    (deck[d.0 as int], deck.update(d.0 as int, deck.last()).drop_last(), d.1)
}

/// Exchange of two positions of a sequence.
pub open spec fn seq_swap<T>(s: Seq<T>, a: int, b: int) -> Seq<T> {
    s.update(a, s[b]).update(b, s[a])
}

/// Fisher-Yates from position `i` down to 1: position `i` is exchanged with a
/// position drawn from `0..=i`, then the same is done for `i - 1`.
pub open spec fn fisher_yates<T>(s: Seq<T>, p: RngPoint, i: nat) -> (Seq<T>, RngPoint)
    decreases i,
{
    if i == 0 {
        (s, p)
    } else {
        let d = bounded_draw(p, ((i + 1) % 256) as u8);
        fisher_yates(seq_swap(s, i as int, d.0 as int), d.1, (i - 1) as nat)
    }
}

/// The shuffle of a whole sequence.
pub open spec fn shuffled<T>(s: Seq<T>, p: RngPoint) -> (Seq<T>, RngPoint) {
    if s.len() == 0 {
        (s, p)
    } else {
        fisher_yates(s, p, (s.len() - 1) as nat)
    }
}

/// The 52 cards in order: card `c` has suit `c / 13` and rank `c % 13`.
pub open spec fn ordered_deck() -> Seq<u8> {
    Seq::new(52, |i: int| i as u8)
}

/// `decks` copies of the ordered deck, one after another.
pub open spec fn ordered_shoe(decks: nat) -> Seq<u8> {
    Seq::new(decks * 52, |i: int| (i % 52) as u8)
}

/// Index of the first occurrence of `c` in `s`.
pub open spec fn first_index<T>(s: Seq<T>, c: T) -> int {
    choose|i: int| 0 <= i < s.len() && s[i] == c && forall|j: int| 0 <= j < i ==> s[j] != c
}

/// A sequence with the first occurrence of each of `cards` taken out, in order;
/// a card that no longer occurs is skipped.
pub open spec fn remove_each<T>(s: Seq<T>, cards: Seq<T>) -> Seq<T>
    decreases cards.len(),
{
    if cards.len() == 0 {
        s
    } else {
        let rest = remove_each(s, cards.drop_last());
        let c = cards.last();
        if rest.contains(c) {
            rest.remove(first_index(rest, c))
        } else {
            rest
        }
    }
}

/// A value that occurs has a first occurrence.
pub proof fn lemma_first_index<T>(s: Seq<T>, c: T)
    requires
        s.contains(c),
    ensures
        0 <= first_index(s, c) < s.len(),
        s[first_index(s, c)] == c,
        forall|j: int| 0 <= j < first_index(s, c) ==> s[j] != c,
    decreases s.len(),
{
    if s[0] == c {
        assert(0 <= 0 < s.len() && s[0] == c && forall|j: int| 0 <= j < 0 ==> s[j] != c);
    } else {
        let t = s.drop_first();
        assert(t.contains(c)) by {
            let k = choose|k: int| 0 <= k < s.len() && s[k] == c;
            assert(t[k - 1] == c);
        }
        lemma_first_index(t, c);
        let f = first_index(t, c);
        assert(0 <= f + 1 < s.len() && s[f + 1] == c && forall|j: int| 0 <= j < f + 1 ==> s[j] != c) by {
            assert forall|j: int| 0 <= j < f + 1 implies s[j] != c by {
                if j > 0 {
                    assert(s[j] == t[j - 1]);
                }
            }
        }
    }
}

/// Taking out the first occurrence of each of `cards` removes at most one
/// element per card.
pub proof fn lemma_remove_each_len<T>(s: Seq<T>, cards: Seq<T>)
    ensures
        s.len() - cards.len() <= remove_each(s, cards).len() <= s.len(),
    decreases cards.len(),
{
    if cards.len() > 0 {
        lemma_remove_each_len(s, cards.drop_last());
        let rest = remove_each(s, cards.drop_last());
        let c = cards.last();
        if rest.contains(c) {
            lemma_first_index(rest, c);
        }
    }
}

/// The faces of `count` successive die rolls and the point reached.
pub open spec fn dice_rolls(p: RngPoint, count: nat) -> (Seq<u8>, RngPoint)
    decreases count,
{
    if count == 0 {
        (Seq::empty(), p)
    } else {
        let prev = dice_rolls(p, (count - 1) as nat);
        let d = bounded_draw(prev.1, 6);
        (prev.0.push((d.0 + 1) as u8), d.1)
    }
}

/// Swapping two positions keeps the multiset of elements.
pub proof fn lemma_swap_multiset<T>(s: Seq<T>, a: int, b: int)
    requires
        0 <= a < s.len(),
        0 <= b < s.len(),
    ensures
        seq_swap(s, a, b).to_multiset() == s.to_multiset(),
{
    broadcast use vstd::seq_lib::to_multiset_update, vstd::multiset::group_multiset_axioms;

    let s1 = s.update(a, s[b]);
    assert(s1[b] == (if a == b { s[b] } else { s[b] }));
    assert(s1.to_multiset() =~= s.to_multiset().insert(s[b]).remove(s[a]));
    assert(s1.update(b, s[a]).to_multiset() =~= s1.to_multiset().insert(s[a]).remove(s1[b]));
    assert(seq_swap(s, a, b).to_multiset() =~= s.to_multiset());
}

/// Fisher-Yates keeps the multiset of elements.
pub proof fn lemma_fisher_yates_multiset<T>(s: Seq<T>, p: RngPoint, i: nat)
    requires
        i < s.len(),
    ensures
        fisher_yates(s, p, i).0.to_multiset() == s.to_multiset(),
        fisher_yates(s, p, i).0.len() == s.len(),
    decreases i,
{
    if i > 0 {
        let d = bounded_draw(p, ((i + 1) % 256) as u8);
        lemma_bounded_draw_range(p, ((i + 1) % 256) as u8);
        lemma_swap_multiset(s, i as int, d.0 as int);
        lemma_fisher_yates_multiset(seq_swap(s, i as int, d.0 as int), d.1, (i - 1) as nat);
    }
}

/// A bounded draw lands below its bound.
pub proof fn lemma_bounded_draw_range(p: RngPoint, max: u8)
    ensures
        max > 0 ==> bounded_draw(p, max).0 < max,
        max == 0 ==> bounded_draw(p, max).0 == 0,
{
}

/// Deterministic random number generator seeded from consensus.
///
/// Uses SHA256 hash chains to generate random numbers deterministically
/// from the network's consensus seed.
#[derive(Clone)]
pub struct GameRng {
    state: [u8; 32],
    index: usize,
}

impl View for GameRng {
    type V = RngPoint;

    closed spec fn view(&self) -> RngPoint {
        (self.state@, self.index as int)
    }
}

/// `decks` copies of the 52 cards in order.
fn ordered_cards(decks: u8) -> (cards: Vec<u8>)
    ensures
        cards@ == ordered_shoe(decks as nat),
{
    let total: usize = decks as usize * 52;
    let mut cards: Vec<u8> = Vec::new();
    let mut i: usize = 0;
    while i < total
        invariant
            total == decks as nat * 52,
            i <= total,
            cards@ == ordered_shoe(decks as nat).subrange(0, i as int),
        decreases total - i,
    {
        cards.push((i % 52) as u8);
        i += 1;
        proof {
            assert(cards@ =~= ordered_shoe(decks as nat).subrange(0, i as int));
        }
    }
    assert(cards@ =~= ordered_shoe(decks as nat));
    cards
}

/// Takes out the first occurrence of each of `excluded`, in order.
fn remove_cards(cards: &mut Vec<u8>, excluded: &[u8])
    ensures
        final(cards)@ == remove_each(old(cards)@, excluded@),
{
    let ghost start = cards@;
    let mut k: usize = 0;
    while k < excluded.len()
        invariant
            k <= excluded@.len(),
            start == old(cards)@,
            cards@ == remove_each(start, excluded@.subrange(0, k as int)),
        decreases excluded@.len() - k,
    {
        let c = excluded[k];
        let ghost before = cards@;
        let mut i: usize = 0;
        while i < cards.len() && cards[i] != c
            invariant
                cards@ == before,
                i <= cards@.len(),
                forall|j: int| 0 <= j < i ==> cards@[j] != c,
            decreases cards@.len() - i,
        {
            i += 1;
        }
        proof {
            let prefix = excluded@.subrange(0, k as int + 1);
            assert(prefix.drop_last() =~= excluded@.subrange(0, k as int));
            assert(prefix.last() == c);
            if i < cards@.len() {
                assert(before.contains(c));
                let f = first_index(before, c);
                assert(0 <= f < before.len() && before[f] == c && forall|j: int| 0 <= j < f ==> before[j] != c) by {
                    assert(0 <= i < before.len() && before[i as int] == c && forall|j: int| 0 <= j < i ==> before[j] != c);
                }
                if f < i {
                    assert(before[f] != c);
                }
                if i < f {
                    assert(before[i as int] != c);
                }
                assert(f == i);
            } else {
                assert(!before.contains(c));
            }
        }
        if i < cards.len() {
            cards.remove(i);
        }
        k += 1;
    }
    assert(excluded@.subrange(0, excluded@.len() as int) =~= excluded@);
}

impl GameRng {
    /// Create a new RNG from the encoded consensus seed, a session ID and a
    /// move number: the state is the SHA-256 of the seed bytes followed by the
    /// big-endian session ID and the big-endian move number.
    pub fn new(seed: &[u8], session_id: u64, move_number: u32) -> (rng: Self)
        ensures
            rng@ == (spec_sha256(seed@ + u64_be_bytes(session_id) + u32_be_bytes(move_number)), 0int),
    {
        let mut input: Vec<u8> = Vec::new();
        let mut i: usize = 0;
        while i < seed.len()
            invariant
                i <= seed@.len(),
                input@ == seed@.subrange(0, i as int),
            decreases seed@.len() - i,
        {
            input.push(seed[i]);
            i += 1;
        }
        proof {
            assert(seed@.subrange(0, seed@.len() as int) =~= seed@);
        }
        input.push(((session_id >> 56u64) & 0xff) as u8);
        input.push(((session_id >> 48u64) & 0xff) as u8);
        input.push(((session_id >> 40u64) & 0xff) as u8);
        input.push(((session_id >> 32u64) & 0xff) as u8);
        input.push(((session_id >> 24u64) & 0xff) as u8);
        input.push(((session_id >> 16u64) & 0xff) as u8);
        input.push(((session_id >> 8u64) & 0xff) as u8);
        input.push((session_id & 0xff) as u8);
        input.push(((move_number >> 24u32) & 0xff) as u8);
        input.push(((move_number >> 16u32) & 0xff) as u8);
        input.push(((move_number >> 8u32) & 0xff) as u8);
        input.push((move_number & 0xff) as u8);
        proof {
            assert(input@ =~= seed@ + u64_be_bytes(session_id) + u32_be_bytes(move_number));
        }
        let state = sha256(input.as_slice());
        GameRng { state, index: 0 }
    }

    /// Create an RNG positioned at the start of a given 32-byte hash state.
    pub fn from_state(state: [u8; 32]) -> (rng: Self)
        ensures
            rng@ == (state@, 0int),
    {
        GameRng { state, index: 0 }
    }

    /// Get the next random byte.
    fn next_byte(&mut self) -> (b: u8)
        ensures
            b == rng_head(old(self)@),
            final(self)@ == rng_step(old(self)@),
    {
        if self.index >= 32 {
            // Rehash to get more bytes
            let digest = sha256(self.state.as_slice());
            self.state = digest;
            self.index = 0;
        }
        let result = self.state[self.index];
        self.index += 1;
        result
    }

    /// Get a random u8 value.
    pub fn next_u8(&mut self) -> (b: u8)
        ensures
            b == rng_head(old(self)@),
            final(self)@ == rng_step(old(self)@),
    {
        self.next_byte()
    }

    /// Get a random u16 value.
    pub fn next_u16(&mut self) -> (v: u16)
        ensures
            v == rng_byte(old(self)@, 0) as int * 256 + rng_byte(old(self)@, 1) as int,
            final(self)@ == rng_advance(old(self)@, 2),
    {
        let ghost p = self@;
        let a = self.next_byte() as u16;
        let b = self.next_byte() as u16;
        proof {
            reveal_with_fuel(rng_advance, 3);
            assert(a < 256 && b < 256);
            assert((a << 8u16) | b == a * 256 + b) by (bit_vector)
                requires
                    a < 256,
                    b < 256,
            ;
        }
        (a << 8) | b
    }

    /// Get a random value in range [0, max).
    ///
    /// Bytes at or above the rejection threshold are skipped so that the
    /// result is unbiased; after `u64::MAX` bytes the last one is used.
    pub fn next_bounded(&mut self, max: u8) -> (v: u8)
        ensures
            (v, final(self)@) == bounded_draw(old(self)@, max),
            max > 0 ==> v < max,
    {
        if max == 0 {
            return 0;
        }
        let ghost p = self@;
        // Simple rejection sampling for unbiased distribution
        let limit = u8::MAX - (u8::MAX % max);
        assert(limit == rejection_limit(max));
        let mut rounds: u64 = 0;
        loop
            invariant
                max > 0,
                p == old(self)@,
                limit == rejection_limit(max),
                rounds < u64::MAX,
                self@ == rng_advance(p, rounds as nat),
                forall|j: nat| j < rounds ==> rng_byte(p, j) >= limit,
            decreases u64::MAX - rounds,
        {
            let value = self.next_u8();
            proof {
                assert(rng_advance(p, (rounds + 1) as nat) == rng_step(rng_advance(p, rounds as nat)));
                assert(value == rng_byte(p, rounds as nat));
            }
            if value < limit {
                proof {
                    let k = rounds as nat;
                    assert(first_accepted(p, limit, k));
                    assert(k < max_draw_rounds());
                    let k2 = accepted_index(p, limit);
                    assert(first_accepted(p, limit, k2));
                    if k2 < k {
                        assert(rng_byte(p, k2) >= limit);
                    }
                    if k < k2 {
                        assert(rng_byte(p, k) >= limit);
                    }
                    assert(k2 == k);
                    assert(self@ == rng_advance(p, k + 1));
                    assert(bounded_draw(p, max).1 == rng_advance(p, k + 1));
                    assert(bounded_draw(p, max).0 == value % max);
                }
                return value % max;
            }
            if rounds == u64::MAX - 1 {
                proof {
                    assert forall|k: nat| k < max_draw_rounds() implies !first_accepted(p, limit, k) by {
                        if k < rounds {
                            assert(rng_byte(p, k) >= limit);
                        } else {
                            assert(k == rounds);
                        }
                    }
                    assert(accepted_index(p, limit) == rounds);
                }
                return value % max;
            }
            rounds += 1;
        }
    }

    /// Draw a card from the deck without replacement: the position is drawn
    /// from `0..len` (with the length taken modulo 256, as a `u8`) and the
    /// card there is swap-removed.
    pub fn draw_card(&mut self, deck: &mut Vec<u8>) -> (card: Option<u8>)
        ensures
            old(deck)@.len() == 0 ==> card is None && final(deck)@ == old(deck)@ && final(self)@
                == old(self)@,
            old(deck)@.len() > 0 ==> {
                let d = bounded_draw(old(self)@, (old(deck)@.len() % 256) as u8);
                &&& d.0 < old(deck)@.len()
                &&& card == Some(old(deck)@[d.0 as int])
                &&& final(deck)@ == old(deck)@.update(d.0 as int, old(deck)@.last()).drop_last()
                &&& final(self)@ == d.1
            },
            card matches Some(c) ==> final(deck)@.to_multiset().insert(c) == old(deck)@.to_multiset(),
    {
        if deck.len() == 0 {
            return None;
        }
        let max = (deck.len() % 256) as u8;
        let idx = self.next_bounded(max) as usize;
        proof {
            broadcast use vstd::seq_lib::to_multiset_update, vstd::seq_lib::to_multiset_build,
                vstd::multiset::group_multiset_axioms;

            let s = deck@;
            let s1 = s.update(idx as int, s.last());
            assert(s1.to_multiset() =~= s.to_multiset().insert(s.last()).remove(s[idx as int]));
            assert(s1 =~= s1.drop_last().push(s1.last()));
            assert(s1.last() == s.last());
            assert(s1.drop_last().to_multiset().insert(s.last()) == s1.to_multiset());
            vstd::seq_lib::to_multiset_contains(s, s[idx as int]);
            assert(s.to_multiset().count(s[idx as int]) > 0);
            let x = s1.drop_last().to_multiset();
            let m = s.to_multiset();
            let a = s[idx as int];
            let l = s.last();
            assert(x.insert(l) == m.insert(l).remove(a));
            assert forall|e: u8| x.count(e) == m.remove(a).count(e) by {
                assert(x.insert(l).count(e) == m.insert(l).remove(a).count(e));
                if e == a {
                    assert(m.insert(l).count(a) > 0);
                }
            }
            assert(x =~= m.remove(a));
            assert(s1.drop_last().to_multiset().insert(s[idx as int]) =~= s.to_multiset());
        }
        Some(deck.swap_remove(idx))
    }

    /// Create a shuffled deck of 52 cards.
    pub fn create_deck(&mut self) -> (deck: Vec<u8>)
        ensures
            (deck@, final(self)@) == shuffled(ordered_deck(), old(self)@),
            deck@.to_multiset() == ordered_deck().to_multiset(),
            deck@.len() == 52,
    {
        let mut deck: Vec<u8> = Vec::new();
        let mut c: u8 = 0;
        while c < 52
            invariant
                c <= 52,
                deck@ == ordered_deck().subrange(0, c as int),
            decreases 52 - c,
        {
            deck.push(c);
            c += 1;
            proof {
                assert(deck@ =~= ordered_deck().subrange(0, c as int));
            }
        }
        assert(deck@ =~= ordered_deck());
        self.shuffle(deck.as_mut_slice());
        deck
    }

    /// Shuffle a slice in place using Fisher-Yates.
    pub fn shuffle<T>(&mut self, slice: &mut [T])
        ensures
            (final(slice)@, final(self)@) == shuffled(old(slice)@, old(self)@),
            final(slice)@.to_multiset() == old(slice)@.to_multiset(),
            final(slice)@.len() == old(slice)@.len(),
    {
        let n = slice.len();
        if n == 0 {
            return;
        }
        let ghost s0 = slice@;
        let ghost p0 = self@;
        let mut i = n - 1;
        while i >= 1
            invariant
                n == s0.len(),
                n >= 1,
                i < n,
                slice@.len() == n,
                fisher_yates(s0, p0, (n - 1) as nat) == fisher_yates(slice@, self@, i as nat),
            decreases i,
        {
            let max = ((i + 1) % 256) as u8;
            let j = self.next_bounded(max) as usize;
            proof {
                lemma_bounded_draw_range(old(self)@, max);
            }
            slice_swap(slice, i, j);
            i -= 1;
        }
        proof {
            lemma_fisher_yates_multiset(s0, p0, (n - 1) as nat);
        }
    }

    /// Roll a single die (1-6).
    pub fn roll_die(&mut self) -> (d: u8)
        ensures
            d == bounded_draw(old(self)@, 6).0 + 1,
            final(self)@ == bounded_draw(old(self)@, 6).1,
            1 <= d <= 6,
    {
        self.next_bounded(6) + 1
    }

    /// Roll multiple dice.
    pub fn roll_dice(&mut self, count: usize) -> (dice: Vec<u8>)
        ensures
            (dice@, final(self)@) == dice_rolls(old(self)@, count as nat),
            dice@.len() == count,
            forall|i: int| 0 <= i < count ==> 1 <= #[trigger] dice@[i] <= 6,
    {
        let ghost p = self@;
        let mut dice: Vec<u8> = Vec::new();
        let mut i: usize = 0;
        while i < count
            invariant
                i <= count,
                p == old(self)@,
                (dice@, self@) == dice_rolls(p, i as nat),
                dice@.len() == i,
                forall|k: int| 0 <= k < i ==> 1 <= #[trigger] dice@[k] <= 6,
            decreases count - i,
        {
            let d = self.roll_die();
            dice.push(d);
            i += 1;
        }
        dice
    }

    /// Create a shuffled shoe of `decks` 52-card decks.
    pub fn create_shoe(&mut self, decks: u8) -> (shoe: Vec<u8>)
        ensures
            (shoe@, final(self)@) == shuffled(ordered_shoe(decks as nat), old(self)@),
            shoe@.to_multiset() == ordered_shoe(decks as nat).to_multiset(),
            shoe@.len() == decks as nat * 52,
    {
        let mut shoe = ordered_cards(decks);
        self.shuffle(shoe.as_mut_slice());
        shoe
    }

    /// Create a shuffled shoe of `decks` decks with the first occurrence of each
    /// of `excluded` (cards already on the table) taken out.
    pub fn create_shoe_excluding(&mut self, excluded: &[u8], decks: u8) -> (shoe: Vec<u8>)
        ensures
            (shoe@, final(self)@) == shuffled(remove_each(ordered_shoe(decks as nat), excluded@), old(self)@),
            shoe@.to_multiset() == remove_each(ordered_shoe(decks as nat), excluded@).to_multiset(),
            shoe@.len() == remove_each(ordered_shoe(decks as nat), excluded@).len(),
    {
        let mut shoe = ordered_cards(decks);
        remove_cards(&mut shoe, excluded);
        self.shuffle(shoe.as_mut_slice());
        shoe
    }

    /// Create a shuffled 52-card deck without the cards in `excluded`.
    pub fn create_deck_excluding(&mut self, excluded: &[u8]) -> (deck: Vec<u8>)
        ensures
            (deck@, final(self)@) == shuffled(remove_each(ordered_shoe(1), excluded@), old(self)@),
            deck@.to_multiset() == remove_each(ordered_shoe(1), excluded@).to_multiset(),
            deck@.len() == remove_each(ordered_shoe(1), excluded@).len(),
    {
        self.create_shoe_excluding(excluded, 1)
    }

    /// Spin roulette wheel (0-36).
    pub fn spin_roulette(&mut self) -> (n: u8)
        ensures
            (n, final(self)@) == bounded_draw(old(self)@, 37),
            n <= 36,
    {
        self.next_bounded(37)
    }
}

/// Draws a card from a deck known to be non-empty.
pub fn draw_from(rng: &mut GameRng, deck: &mut Vec<u8>) -> (c: u8)
    requires
        old(deck)@.len() > 0,
    ensures
        (c, final(deck)@, final(rng)@) == card_draw(old(deck)@, old(rng)@),
        final(deck)@.len() == old(deck)@.len() - 1,
{
    match rng.draw_card(deck) {
        Some(c) => c,
        None => 0,
    }
}

} // verus!
