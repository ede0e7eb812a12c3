//! Super Mode multiplier generation and application.
//!
//! Super mode adds "aura" elements (cards, ranks, suits, roulette numbers or
//! dice totals) to a round; a win touching them is boosted. The functions here
//! draw those elements from the game's random stream and apply them to payouts.

use super::common::{sat_mul, saturating_mul_u64};
use super::rng::{rng_advance, rng_byte, rng_head, rng_step, GameRng, RngPoint};
use super::session::{SuperModeState, SuperMultiplier, SuperType};
use vstd::prelude::*;

verus! {

/// Whether a card matches a card-, rank- or suit-keyed multiplier.
pub open spec fn card_matches(card: u8, m: SuperMultiplier) -> bool {
    match m.super_type {
        SuperType::Card => card == m.id,
        SuperType::Rank => card % 13 == m.id,
        SuperType::Suit => card / 13 == m.id,
        _ => false,
    }
}

/// `acc` multiplied (saturating) by every multiplier in `mults` that `card` matches.
pub open spec fn card_product(card: u8, mults: Seq<SuperMultiplier>, acc: int) -> int
    decreases mults.len(),
{
    if mults.len() == 0 {
        acc
    } else {
        let a = card_product(card, mults.drop_last(), acc);
        if card_matches(card, mults.last()) {
            sat_mul(a, mults.last().multiplier as int)
        } else {
            a
        }
    }
}

/// Saturating product of the multipliers matched by each card, cards in order.
pub open spec fn cards_product(cards: Seq<u8>, mults: Seq<SuperMultiplier>) -> int
    decreases cards.len(),
{
    if cards.len() == 0 {
        1
    } else {
        card_product(cards.last(), mults, cards_product(cards.drop_last(), mults))
    }
}

/// Multiplier of the first entry of type `t` with id `id`, or 1 when none.
pub open spec fn keyed_multiplier(mults: Seq<SuperMultiplier>, t: SuperType, id: u8) -> int
    decreases mults.len(),
{
    if mults.len() == 0 {
        1
    } else if mults[0].super_type == t && mults[0].id == id {
        mults[0].multiplier as int
    } else {
        keyed_multiplier(mults.drop_first(), t, id)
    }
}

/// Number of (card, multiplier) pairs where the multiplier is a `Card` entry for that card.
pub open spec fn mega_count(cards: Seq<u8>, mults: Seq<SuperMultiplier>) -> int
    decreases cards.len(),
{
    if cards.len() == 0 {
        0
    } else {
        mega_count(cards.drop_last(), mults) + entry_count(mults, SuperType::Card, cards.last())
    }
}

/// Number of entries of type `t` with id `id`.
pub open spec fn entry_count(mults: Seq<SuperMultiplier>, t: SuperType, id: u8) -> int
    decreases mults.len(),
{
    if mults.len() == 0 {
        0
    } else {
        entry_count(mults.drop_last(), t, id) + if mults.last().super_type == t && mults.last().id
            == id {
            1int
        } else {
            0
        }
    }
}

/// There are at most as many matching entries as entries.
pub proof fn lemma_entry_count_bound(mults: Seq<SuperMultiplier>, t: SuperType, id: u8)
    ensures
        0 <= entry_count(mults, t, id) <= mults.len(),
    decreases mults.len(),
{
    if mults.len() > 0 {
        lemma_entry_count_bound(mults.drop_last(), t, id);
    }
}

/// Number of (card, multiplier) pairs where the multiplier is a `Suit` entry for suit `s`
/// and the card has that suit.
pub open spec fn flash_count(cards: Seq<u8>, mults: Seq<SuperMultiplier>, s: u8) -> int
    decreases cards.len(),
{
    if cards.len() == 0 {
        0
    } else {
        flash_count(cards.drop_last(), mults, s) + if cards.last() / 13 == s {
            entry_count(mults, SuperType::Suit, s)
        } else {
            0
        }
    }
}

/// Whether a card's rank is one of the `Rank` entries.
pub open spec fn is_blitz(card: u8, mults: Seq<SuperMultiplier>) -> bool {
    exists|j: int|
        0 <= j < mults.len() && mults[j].super_type == SuperType::Rank && card % 13 == mults[j].id
}

/// Multiplier (tenths) for a HiLo streak.
pub open spec fn hilo_streak_tenths(streak: u8) -> u16 {
    if streak <= 1 {
        15
    } else if streak == 2 {
        25
    } else if streak == 3 {
        40
    } else if streak == 4 {
        70
    } else if streak == 5 {
        120
    } else if streak == 6 {
        200
    } else if streak == 7 {
        350
    } else if streak == 8 {
        600
    } else if streak == 9 {
        1000
    } else {
        2000
    }
}

fn streak_tenths(streak: u8) -> (t: u16)
    ensures
        t == hilo_streak_tenths(streak),
{
    match streak {
        0 | 1 => 15,
        2 => 25,
        3 => 40,
        4 => 70,
        5 => 120,
        6 => 200,
        7 => 350,
        8 => 600,
        9 => 1000,
        _ => 2000,
    }
}

/// Whether a card matches the multiplier (same test as [`card_matches`]).
fn card_matches_exec(card: u8, m: &SuperMultiplier) -> (b: bool)
    ensures
        b == card_matches(card, *m),
{
    match m.super_type {
        SuperType::Card => card == m.id,
        SuperType::Rank => (card % 13) == m.id,
        SuperType::Suit => (card / 13) == m.id,
        _ => false,
    }
}

// ============================================================================
// Drawing distinct elements
// ============================================================================

/// The value a draw makes of a stream byte: `offset + byte % modulus`.
pub open spec fn drawn_value(b: u8, offset: u8, modulus: u8) -> u8 {
    (offset as int + b as int % modulus as int) as u8
}

/// Most bytes a draw of a fresh value reads past the first.
pub open spec fn max_fresh_rounds() -> nat {
    u64::MAX as nat
}

/// Byte `k` of the stream from `p` gives a value not in `taken`, and every
/// byte before it gives one that is.
pub open spec fn first_fresh(p: RngPoint, taken: Seq<u8>, offset: u8, modulus: u8, k: nat) -> bool {
    &&& !taken.contains(drawn_value(rng_byte(p, k), offset, modulus))
    &&& forall|j: nat| j < k ==> taken.contains(#[trigger] drawn_value(rng_byte(p, j), offset, modulus))
}

/// Whether one of the first `max_fresh_rounds() + 1` bytes gives a value not
/// in `taken`.
pub open spec fn fresh_found(p: RngPoint, taken: Seq<u8>, offset: u8, modulus: u8) -> bool {
    exists|k: nat| k <= max_fresh_rounds() && first_fresh(p, taken, offset, modulus, k)
}

/// The byte a fresh draw keeps: the first that gives a value not in `taken`,
/// or the last one read when none of them does.
pub open spec fn fresh_index(p: RngPoint, taken: Seq<u8>, offset: u8, modulus: u8) -> nat {
    if fresh_found(p, taken, offset, modulus) {
        choose|k: nat| k <= max_fresh_rounds() && first_fresh(p, taken, offset, modulus, k)
    } else {
        max_fresh_rounds()
    }
}

/// A draw of a value not in `taken`: bytes are read until one gives such a
/// value (`offset + byte % modulus`). The value and the point after it.
pub open spec fn fresh_draw(p: RngPoint, taken: Seq<u8>, offset: u8, modulus: u8) -> (u8, RngPoint) {
    let k = fresh_index(p, taken, offset, modulus);
    (drawn_value(rng_byte(p, k), offset, modulus), rng_advance(p, k + 1))
}

/// `n` fresh draws one after another, each against the values before it:
/// the values, the point after them, and whether every draw found a new
/// value within its bytes.
pub open spec fn fresh_draws(p: RngPoint, n: nat, offset: u8, modulus: u8) -> (Seq<u8>, RngPoint, bool)
    decreases n,
{
    if n == 0 {
        (Seq::empty(), p, true)
    } else {
        let (vs, q, ok) = fresh_draws(p, (n - 1) as nat, offset, modulus);
        let (v, q2) = fresh_draw(q, vs, offset, modulus);
        (vs.push(v), q2, ok && fresh_found(q, vs, offset, modulus))
    }
}

/// Entries of type `t` with the marker multiplier 1, one per id.
pub open spec fn marker_entries(ids: Seq<u8>, t: SuperType) -> Seq<SuperMultiplier> {
    ids.map_values(|id: u8| SuperMultiplier { id, multiplier: 1, super_type: t })
}

/// Whether no two entries share an id.
pub open spec fn distinct_ids(mults: Seq<SuperMultiplier>) -> bool {
    forall|i: int, j: int| 0 <= i < j < mults.len() ==> mults[i].id != mults[j].id
}

/// A fresh draw that found a new value in time gives a value not in `taken`.
proof fn lemma_fresh_draw_new(p: RngPoint, taken: Seq<u8>, offset: u8, modulus: u8)
    ensures
        fresh_found(p, taken, offset, modulus) ==> !taken.contains(fresh_draw(p, taken, offset, modulus).0),
{
    if fresh_found(p, taken, offset, modulus) {
        let k = fresh_index(p, taken, offset, modulus);
        assert(first_fresh(p, taken, offset, modulus, k));
    }
}

/// Fresh draws that all found a new value in time give distinct values, each
/// within `offset .. offset + modulus`; there are `n` of them.
proof fn lemma_fresh_draws(p: RngPoint, n: nat, offset: u8, modulus: u8)
    requires
        0 < modulus,
        offset + modulus <= 256,
    ensures
        fresh_draws(p, n, offset, modulus).0.len() == n,
        forall|i: int|
            0 <= i < n ==> offset <= #[trigger] fresh_draws(p, n, offset, modulus).0[i] < offset + modulus,
        fresh_draws(p, n, offset, modulus).2 ==> fresh_draws(p, n, offset, modulus).0.no_duplicates(),
    decreases n,
{
    if n > 0 {
        let (vs, q, ok) = fresh_draws(p, (n - 1) as nat, offset, modulus);
        lemma_fresh_draws(p, (n - 1) as nat, offset, modulus);
        lemma_fresh_draw_new(q, vs, offset, modulus);
        let v = fresh_draw(q, vs, offset, modulus).0;
        let b = rng_byte(q, fresh_index(q, vs, offset, modulus));
        assert((b as int) % (modulus as int) < (modulus as int));
        let all = fresh_draws(p, n, offset, modulus).0;
        assert(all == vs.push(v));
        assert forall|i: int| 0 <= i < n implies offset <= #[trigger] all[i] < offset + modulus by {
            if i < n - 1 {
                assert(all[i] == vs[i]);
            }
        }
        if fresh_draws(p, n, offset, modulus).2 {
            assert forall|i: int, j: int| 0 <= i < all.len() && 0 <= j < all.len() && i != j implies all[i]
                != all[j] by {
                if i == n - 1 {
                    assert(vs[j] == all[j]);
                } else if j == n - 1 {
                    assert(vs[i] == all[i]);
                }
            }
        }
    }
}

/// The ids of marker entries are their ids.
proof fn lemma_marker_distinct(ids: Seq<u8>, t: SuperType)
    ensures
        ids.no_duplicates() ==> distinct_ids(marker_entries(ids, t)),
{
}

/// Whether `v` occurs in `taken`.
fn contains_byte(taken: &[u8], v: u8) -> (r: bool)
    ensures
        r == taken@.contains(v),
{
    let mut i: usize = 0;
    while i < taken.len()
        invariant
            i <= taken@.len(),
            forall|j: int| 0 <= j < i ==> taken@[j] != v,
        decreases taken.len() - i,
    {
        if taken[i] == v {
            return true;
        }
        i = i + 1;
    }
    false
}

/// Draws a value not in `taken`, rereading the stream while the value is
/// taken, for at most `u64::MAX` bytes past the first.
fn draw_fresh(rng: &mut GameRng, taken: &[u8], offset: u8, modulus: u8) -> (v: u8)
    requires
        0 < modulus,
        offset + modulus <= 256,
    ensures
        (v, final(rng)@) == fresh_draw(old(rng)@, taken@, offset, modulus),
{
    let ghost p = rng@;
    let b = rng.next_u8();
    let mut v: u8 = offset + b % modulus;
    proof {
        assert(rng_advance(p, 1) == rng_step(rng_advance(p, 0)));
        assert(v == drawn_value(rng_byte(p, 0), offset, modulus));
    }
    let mut rounds: u64 = 0;
    while contains_byte(taken, v) && rounds < u64::MAX
        invariant
            0 < modulus,
            offset + modulus <= 256,
            rng@ == rng_advance(p, rounds as nat + 1),
            v == drawn_value(rng_byte(p, rounds as nat), offset, modulus),
            forall|j: nat| j < rounds ==> taken@.contains(#[trigger] drawn_value(rng_byte(p, j), offset, modulus)),
        decreases u64::MAX - rounds,
    {
        let b = rng.next_u8();
        proof {
            assert(rng_advance(p, rounds as nat + 2) == rng_step(rng_advance(p, rounds as nat + 1)));
        }
        v = offset + b % modulus;
        rounds = rounds + 1;
    }
    proof {
        let k = rounds as nat;
        if !taken@.contains(v) {
            assert(first_fresh(p, taken@, offset, modulus, k));
            assert(fresh_found(p, taken@, offset, modulus));
            let k2 = fresh_index(p, taken@, offset, modulus);
            assert(first_fresh(p, taken@, offset, modulus, k2));
            if k2 < k {
                assert(taken@.contains(drawn_value(rng_byte(p, k2), offset, modulus)));
            }
            if k < k2 {
                assert(taken@.contains(drawn_value(rng_byte(p, k), offset, modulus)));
            }
            assert(k2 == k);
        } else {
            assert(k == max_fresh_rounds());
            assert forall|k3: nat| k3 <= max_fresh_rounds() implies !first_fresh(p, taken@, offset, modulus, k3) by {
                if k3 < k {
                    assert(taken@.contains(drawn_value(rng_byte(p, k3), offset, modulus)));
                }
            }
            assert(!fresh_found(p, taken@, offset, modulus));
        }
    }
    v
}

/// Draws `n` values one after another, each not among those before it.
fn draw_distinct(rng: &mut GameRng, n: usize, offset: u8, modulus: u8) -> (vs: Vec<u8>)
    requires
        0 < modulus,
        offset + modulus <= 256,
    ensures
        vs@ == fresh_draws(old(rng)@, n as nat, offset, modulus).0,
        final(rng)@ == fresh_draws(old(rng)@, n as nat, offset, modulus).1,
{
    let ghost p = rng@;
    let mut vs: Vec<u8> = Vec::new();
    let mut i: usize = 0;
    while i < n
        invariant
            i <= n,
            0 < modulus,
            offset + modulus <= 256,
            vs@ == fresh_draws(p, i as nat, offset, modulus).0,
            rng@ == fresh_draws(p, i as nat, offset, modulus).1,
        decreases n - i,
    {
        let v = draw_fresh(rng, vs.as_slice(), offset, modulus);
        vs.push(v);
        i = i + 1;
    }
    vs
}

/// Entries of type `t` with the marker multiplier 1, one per id.
fn markers(ids: &[u8], t: SuperType) -> (m: Vec<SuperMultiplier>)
    ensures
        m@ == marker_entries(ids@, t),
{
    let mut m: Vec<SuperMultiplier> = Vec::new();
    let mut i: usize = 0;
    while i < ids.len()
        invariant
            i <= ids@.len(),
            m@ == marker_entries(ids@.take(i as int), t),
        decreases ids.len() - i,
    {
        m.push(SuperMultiplier { id: ids[i], multiplier: 1, super_type: t });
        proof {
            assert(ids@.take(i + 1) =~= ids@.take(i as int).push(ids@[i as int]));
            assert(marker_entries(ids@.take(i + 1), t) =~= marker_entries(ids@.take(i as int), t).push(
                SuperMultiplier { id: ids@[i as int], multiplier: 1, super_type: t },
            ));
        }
        i = i + 1;
    }
    assert(ids@.take(ids@.len() as int) =~= ids@);
    m
}

/// The multiplier drawn for a Sic Bo total from a stream byte: 3-5x for
/// totals 10 and 11, 5-10x for 7, 8, 13 and 14, 10-50x for the others.
pub open spec fn sic_bo_multiplier(total: u8, b: u8) -> u16 {
    if total == 10 || total == 11 {
        (3 + b % 3) as u16
    } else if total == 7 || total == 8 || total == 13 || total == 14 {
        (5 + b % 6) as u16
    } else {
        (10 + b % 41) as u16
    }
}

/// `n` Sic Bo entries drawn one after another: a total from 4-17 not drawn
/// before, then its multiplier from the next byte. The entries, the point
/// after them, and whether every total was found within its bytes.
pub open spec fn sic_bo_draws(p: RngPoint, n: nat) -> (Seq<SuperMultiplier>, RngPoint, bool)
    decreases n,
{
    if n == 0 {
        (Seq::empty(), p, true)
    } else {
        let (ms, q, ok) = sic_bo_draws(p, (n - 1) as nat);
        let taken = ms.map_values(|m: SuperMultiplier| m.id);
        let (total, q1) = fresh_draw(q, taken, 4, 14);
        (
            ms.push(
                SuperMultiplier {
                    id: total,
                    multiplier: sic_bo_multiplier(total, rng_head(q1)),
                    super_type: SuperType::Total,
                },
            ),
            rng_step(q1),
            ok && fresh_found(q, taken, 4, 14),
        )
    }
}

/// Sic Bo draws that all found a new total in time give distinct totals.
proof fn lemma_sic_bo_distinct(p: RngPoint, n: nat)
    ensures
        sic_bo_draws(p, n).0.len() == n,
        sic_bo_draws(p, n).2 ==> distinct_ids(sic_bo_draws(p, n).0),
    decreases n,
{
    if n > 0 {
        let (ms, q, ok) = sic_bo_draws(p, (n - 1) as nat);
        let taken = ms.map_values(|m: SuperMultiplier| m.id);
        lemma_sic_bo_distinct(p, (n - 1) as nat);
        lemma_fresh_draw_new(q, taken, 4, 14);
        let all = sic_bo_draws(p, n).0;
        if sic_bo_draws(p, n).2 {
            assert forall|i: int, j: int| 0 <= i < j < all.len() implies all[i].id != all[j].id by {
                if j == n - 1 {
                    assert(all[i] == ms[i]);
                    assert(taken[i] == ms[i].id);
                } else {
                    assert(all[i] == ms[i]);
                    assert(all[j] == ms[j]);
                }
            }
        }
    }
}

/// The Mega Cards drawn from the stream at `p`: four cards (0-51), each not
/// drawn before, as `Card` entries with the marker multiplier 1; and the
/// point after them.
pub open spec fn video_poker_draw(p: RngPoint) -> (Seq<SuperMultiplier>, RngPoint) {
    let d = fresh_draws(p, 4, 0, 52);
    (marker_entries(d.0, SuperType::Card), d.1)
}

/// The Flash Suits drawn from the stream at `p`: two suits (0-3), the second
/// not the first, as `Suit` entries with the marker multiplier 1; and the
/// point after them.
pub open spec fn three_card_draw(p: RngPoint) -> (Seq<SuperMultiplier>, RngPoint) {
    let d = fresh_draws(p, 2, 0, 4);
    (marker_entries(d.0, SuperType::Suit), d.1)
}

/// The Blitz ranks drawn from the stream at `p`: two ranks (0-12), the
/// second not the first, as `Rank` entries with the marker multiplier 1; and
/// the point after them.
pub open spec fn uth_draw(p: RngPoint) -> (Seq<SuperMultiplier>, RngPoint) {
    let d = fresh_draws(p, 2, 0, 13);
    (marker_entries(d.0, SuperType::Rank), d.1)
}

/// The Strike ranks drawn from the stream at `p`: three ranks (0-12), each
/// not drawn before, as `Rank` entries with the marker multiplier 1; and the
/// point after them.
pub open spec fn casino_war_draw(p: RngPoint) -> (Seq<SuperMultiplier>, RngPoint) {
    let d = fresh_draws(p, 3, 0, 13);
    (marker_entries(d.0, SuperType::Rank), d.1)
}

/// Generate Fortune Sic Bo multipliers (3 distinct totals from 4-17, 3-50x):
/// totals 10-11 get 3-5x, totals 7, 8, 13, 14 get 5-10x, the others 10-50x.
/// The totals are distinct unless a draw read `u64::MAX` bytes past its first
/// without finding a new one.
pub fn generate_sic_bo_multipliers(rng: &mut GameRng) -> (mults: Vec<SuperMultiplier>)
    ensures
        mults@ == sic_bo_draws(old(rng)@, 3).0,
        final(rng)@ == sic_bo_draws(old(rng)@, 3).1,
        sic_bo_draws(old(rng)@, 3).2 ==> distinct_ids(mults@),
        mults@.len() == 3,
        forall|i: int|
            0 <= i < 3 ==> {
                let m = #[trigger] mults@[i];
                &&& 4 <= m.id <= 17
                &&& m.super_type == SuperType::Total
                &&& (m.id == 10 || m.id == 11) ==> 3 <= m.multiplier <= 5
                &&& (m.id == 7 || m.id == 8 || m.id == 13 || m.id == 14) ==> 5 <= m.multiplier
                    <= 10
                &&& !(m.id == 7 || m.id == 8 || m.id == 10 || m.id == 11 || m.id == 13 || m.id
                    == 14) ==> 10 <= m.multiplier <= 50
            },
{
    let ghost p = rng@;
    let mut mults: Vec<SuperMultiplier> = Vec::new();
    let mut taken: Vec<u8> = Vec::new();
    let mut n: usize = 0;
    while n < 3
        invariant
            n <= 3,
            mults@ == sic_bo_draws(p, n as nat).0,
            rng@ == sic_bo_draws(p, n as nat).1,
            taken@ == mults@.map_values(|m: SuperMultiplier| m.id),
            mults@.len() == n,
            forall|i: int|
                0 <= i < n ==> {
                    let m = #[trigger] mults@[i];
                    &&& 4 <= m.id <= 17
                    &&& m.super_type == SuperType::Total
                    &&& (m.id == 10 || m.id == 11) ==> 3 <= m.multiplier <= 5
                    &&& (m.id == 7 || m.id == 8 || m.id == 13 || m.id == 14) ==> 5 <= m.multiplier
                        <= 10
                    &&& !(m.id == 7 || m.id == 8 || m.id == 10 || m.id == 11 || m.id == 13 || m.id
                        == 14) ==> 10 <= m.multiplier <= 50
                },
        decreases 3 - n,
    {
        let ghost before = mults@;
        let total = draw_fresh(rng, taken.as_slice(), 4, 14);
        proof {
            let q = sic_bo_draws(p, n as nat).1;
            let k = fresh_index(q, taken@, 4, 14);
            assert(rng_byte(q, k) as int % 14 < 14);
        }
        let b = rng.next_u8();
        let multiplier: u16 = if total == 10 || total == 11 {
            3 + (b % 3) as u16
        } else if total == 7 || total == 8 || total == 13 || total == 14 {
            5 + (b % 6) as u16
        } else {
            10 + (b % 41) as u16
        };
        let m = SuperMultiplier { id: total, multiplier, super_type: SuperType::Total };
        mults.push(m);
        taken.push(total);
        proof {
            assert(taken@ =~= mults@.map_values(|m: SuperMultiplier| m.id));
            assert(mults@ =~= before.push(m));
        }
        n += 1;
    }
    proof {
        lemma_sic_bo_distinct(p, 3);
    }
    mults
}

/// Generate Mega Video Poker multipliers: 4 distinct cards (0-51), each a
/// `Card` entry with the marker multiplier 1 (the boost is count-based, see
/// [`apply_video_poker_mega_multiplier`]). The cards are distinct unless a
/// draw read `u64::MAX` bytes past its first without finding a new one.
pub fn generate_video_poker_multipliers(rng: &mut GameRng) -> (mults: Vec<SuperMultiplier>)
    ensures
        (mults@, final(rng)@) == video_poker_draw(old(rng)@),
        fresh_draws(old(rng)@, 4, 0, 52).2 ==> distinct_ids(mults@),
        mults@.len() == 4,
        forall|i: int|
            0 <= i < 4 ==> {
                let m = #[trigger] mults@[i];
                &&& m.id < 52
                &&& m.multiplier == 1
                &&& m.super_type == SuperType::Card
            },
{
    let ghost p = rng@;
    let ids = draw_distinct(rng, 4, 0, 52);
    proof {
        lemma_fresh_draws(p, 4, 0, 52);
        lemma_marker_distinct(ids@, SuperType::Card);
    }
    markers(ids.as_slice(), SuperType::Card)
}

/// Apply Video Poker Mega multiplier based on the number of Mega Card matches
/// in the final hand: 1 match 1.5x (rounded down), 2 matches 3x, 3 matches 10x,
/// 4 or more 100x, and 1000x for any match in a royal flush.
pub fn apply_video_poker_mega_multiplier(
    hand_cards: &[u8],
    multipliers: &[SuperMultiplier],
    base_payout: u64,
    is_royal_flush: bool,
) -> (r: u64)
    requires
        hand_cards@.len() * multipliers@.len() <= i32::MAX,
    ensures
        ({
            let count = mega_count(hand_cards@, multipliers@);
            let royal = is_royal_flush && count > 0;
            r == if royal {
                sat_mul(base_payout as int, 1000)
            } else if count == 0 {
                base_payout as int
            } else if count == 1 {
                sat_mul(base_payout as int, 15) / 10
            } else if count == 2 {
                sat_mul(base_payout as int, 3)
            } else if count == 3 {
                sat_mul(base_payout as int, 10)
            } else {
                sat_mul(base_payout as int, 100)
            }
        }),
{
    let mut mega_count_v: i32 = 0;
    let mut has_mega_in_royal = false;
    let mut ci: usize = 0;
    while ci < hand_cards.len()
        invariant
            ci <= hand_cards@.len(),
            hand_cards@.len() * multipliers@.len() <= i32::MAX,
            mega_count_v == mega_count(hand_cards@.subrange(0, ci as int), multipliers@),
            0 <= mega_count_v <= ci * multipliers@.len(),
            has_mega_in_royal == (is_royal_flush && mega_count_v > 0),
        decreases hand_cards@.len() - ci,
    {
        let card = hand_cards[ci];
        let ghost before = mega_count_v;
        let mut mi: usize = 0;
        while mi < multipliers.len()
            invariant
                ci < hand_cards@.len(),
                mi <= multipliers@.len(),
                hand_cards@.len() * multipliers@.len() <= i32::MAX,
                0 <= before <= ci * multipliers@.len(),
                card == hand_cards@[ci as int],
                mega_count_v == before + entry_count(
                    multipliers@.subrange(0, mi as int),
                    SuperType::Card,
                    card,
                ),
                has_mega_in_royal == (is_royal_flush && mega_count_v > 0),
            decreases multipliers@.len() - mi,
        {
            proof {
                let s = multipliers@.subrange(0, mi as int);
                lemma_entry_count_bound(s, SuperType::Card, card);
                assert(multipliers@.subrange(0, mi as int + 1).drop_last() =~= s);
                assert((ci as int + 1) * multipliers@.len() <= hand_cards@.len() * multipliers@.len())
                    by (nonlinear_arith)
                    requires
                        ci + 1 <= hand_cards@.len(),
                ;
                assert((ci as int + 1) * multipliers@.len() == ci * multipliers@.len() + multipliers@.len())
                    by (nonlinear_arith);
            }
            let m = &multipliers[mi];
            if m.super_type == SuperType::Card && card == m.id {
                mega_count_v += 1;
                if is_royal_flush {
                    has_mega_in_royal = true;
                }
            }
            proof {
                let s1 = multipliers@.subrange(0, mi as int + 1);
                assert(s1.drop_last() =~= multipliers@.subrange(0, mi as int));
            }
            mi += 1;
        }
        proof {
            assert(multipliers@.subrange(0, multipliers@.len() as int) =~= multipliers@);
            let h1 = hand_cards@.subrange(0, ci as int + 1);
            assert(h1.drop_last() =~= hand_cards@.subrange(0, ci as int));
            assert(h1.last() == card);
            lemma_entry_count_bound(multipliers@, SuperType::Card, card);
            assert((ci as int + 1) * multipliers@.len() == ci * multipliers@.len() + multipliers@.len())
                by (nonlinear_arith);
        }
        ci += 1;
    }
    assert(hand_cards@.subrange(0, hand_cards@.len() as int) =~= hand_cards@);

    // Apply count-based multiplier
    let multiplier: u64 = if has_mega_in_royal {
        1000
    } else {
        match mega_count_v {
            0 => 1,
            1 => 15,
            2 => 30,
            3 => 10,
            _ => 100,
        }
    };

    // For fractional multipliers, multiply then divide
    if mega_count_v == 1 && !has_mega_in_royal {
        saturating_mul_u64(base_payout, 15) / 10
    } else if mega_count_v == 2 && !has_mega_in_royal {
        saturating_mul_u64(base_payout, 3)
    } else {
        saturating_mul_u64(base_payout, multiplier)
    }
}

/// Generate Flash Three Card Poker multipliers: 2 distinct suits (0-3), each a
/// `Suit` entry with the marker multiplier 1 (the boost is configuration-based,
/// see [`apply_three_card_flash_multiplier`]). The suits are distinct unless
/// the second draw read `u64::MAX` bytes past its first without finding a new
/// one.
pub fn generate_three_card_multipliers(rng: &mut GameRng) -> (mults: Vec<SuperMultiplier>)
    ensures
        (mults@, final(rng)@) == three_card_draw(old(rng)@),
        fresh_draws(old(rng)@, 2, 0, 4).2 ==> distinct_ids(mults@),
        mults@.len() == 2,
        mults@[0].id < 4 && mults@[1].id < 4,
        mults@[0].multiplier == 1 && mults@[1].multiplier == 1,
        mults@[0].super_type == SuperType::Suit && mults@[1].super_type == SuperType::Suit,
{
    let ghost p = rng@;
    let ids = draw_distinct(rng, 2, 0, 4);
    proof {
        lemma_fresh_draws(p, 2, 0, 4);
        lemma_marker_distinct(ids@, SuperType::Suit);
    }
    markers(ids.as_slice(), SuperType::Suit)
}

/// Largest per-suit count of Flash Suit matches.
pub open spec fn max_flash_count(cards: Seq<u8>, mults: Seq<SuperMultiplier>) -> int {
    let c0 = flash_count(cards, mults, 0);
    let c1 = flash_count(cards, mults, 1);
    let c2 = flash_count(cards, mults, 2);
    let c3 = flash_count(cards, mults, 3);
    let m01 = if c0 >= c1 { c0 } else { c1 };
    let m23 = if c2 >= c3 { c2 } else { c3 };
    if m01 >= m23 { m01 } else { m23 }
}

/// Flash multiplier for a Three Card hand given its largest Flash Suit count.
pub open spec fn flash_multiplier(max_count: int, is_straight: bool, is_flush: bool) -> int {
    if is_flush && is_straight && max_count == 3 {
        25
    } else if is_flush && max_count == 3 {
        5
    } else if is_straight && max_count >= 2 {
        4
    } else if max_count >= 2 {
        2
    } else {
        1
    }
}

/// Flash suit counts never exceed the number of (card, entry) pairs.
proof fn lemma_flash_count_bound(cards: Seq<u8>, mults: Seq<SuperMultiplier>, s: u8)
    ensures
        0 <= flash_count(cards, mults, s) <= cards.len() * mults.len(),
    decreases cards.len(),
{
    if cards.len() > 0 {
        lemma_flash_count_bound(cards.drop_last(), mults, s);
        lemma_entry_count_bound(mults, SuperType::Suit, s);
        assert(cards.len() * mults.len() == (cards.len() - 1) * mults.len() + mults.len())
            by (nonlinear_arith);
    }
}

/// Apply Three Card Poker Flash multiplier based on hand configuration:
/// 25x for a straight flush in a Flash Suit, 5x for a flush in one, 4x for a
/// straight with 2+ cards in one, 2x for 2+ cards in one, else unchanged.
pub fn apply_three_card_flash_multiplier(
    hand_cards: &[u8],
    multipliers: &[SuperMultiplier],
    base_payout: u64,
    is_straight: bool,
    is_flush: bool,
) -> (r: u64)
    requires
        hand_cards@.len() * multipliers@.len() <= 255,
        forall|i: int, j: int|
            0 <= i < hand_cards@.len() && 0 <= j < multipliers@.len() && multipliers@[j].super_type
                == SuperType::Suit && hand_cards@[i] / 13 == multipliers@[j].id ==> hand_cards@[i]
                < 52,
    ensures
        r == sat_mul(
            base_payout as int,
            flash_multiplier(max_flash_count(hand_cards@, multipliers@), is_straight, is_flush),
        ),
{
    let mut counts: [u8; 4] = [0u8; 4];
    let mut ci: usize = 0;
    while ci < hand_cards.len()
        invariant
            ci <= hand_cards@.len(),
            hand_cards@.len() * multipliers@.len() <= 255,
            forall|i: int, j: int|
                0 <= i < hand_cards@.len() && 0 <= j < multipliers@.len()
                    && multipliers@[j].super_type == SuperType::Suit && hand_cards@[i] / 13
                    == multipliers@[j].id ==> hand_cards@[i] < 52,
            forall|s: int|
                0 <= s < 4 ==> #[trigger] counts@[s] == flash_count(
                    hand_cards@.subrange(0, ci as int),
                    multipliers@,
                    s as u8,
                ),
        decreases hand_cards@.len() - ci,
    {
        let card = hand_cards[ci];
        let suit = card / 13;
        let ghost before = counts@;
        proof {
            let h = hand_cards@.subrange(0, ci as int);
            let h1 = hand_cards@.subrange(0, ci as int + 1);
            assert(h1.drop_last() =~= h);
            assert(h1.last() == card);
            assert forall|s: int| 0 <= s < 4 implies #[trigger] before[s] <= ci * multipliers@.len() by {
                lemma_flash_count_bound(h, multipliers@, s as u8);
            }
            assert((ci as int + 1) * multipliers@.len() <= hand_cards@.len() * multipliers@.len())
                by (nonlinear_arith)
                requires
                    ci + 1 <= hand_cards@.len(),
            ;
            assert((ci as int + 1) * multipliers@.len() == ci * multipliers@.len() + multipliers@.len())
                by (nonlinear_arith);
        }
        let mut mi: usize = 0;
        while mi < multipliers.len()
            invariant
                ci < hand_cards@.len(),
                mi <= multipliers@.len(),
                card == hand_cards@[ci as int],
                suit == card / 13,
                hand_cards@.len() * multipliers@.len() <= 255,
                forall|i: int, j: int|
                    0 <= i < hand_cards@.len() && 0 <= j < multipliers@.len()
                        && multipliers@[j].super_type == SuperType::Suit && hand_cards@[i] / 13
                        == multipliers@[j].id ==> hand_cards@[i] < 52,
                forall|s: int| 0 <= s < 4 ==> #[trigger] before[s] + multipliers@.len() <= 255,
                forall|s: int|
                    0 <= s < 4 ==> #[trigger] counts@[s] == before[s] + if suit == s {
                        entry_count(multipliers@.subrange(0, mi as int), SuperType::Suit, s as u8)
                    } else {
                        0
                    },
            decreases multipliers@.len() - mi,
        {
            proof {
                let sub = multipliers@.subrange(0, mi as int);
                assert(multipliers@.subrange(0, mi as int + 1).drop_last() =~= sub);
                if suit < 4 {
                    lemma_entry_count_bound(sub, SuperType::Suit, suit);
                }
            }
            let m = &multipliers[mi];
            if m.super_type == SuperType::Suit && suit == m.id {
                proof {
                    assert(hand_cards@[ci as int] / 13 == multipliers@[mi as int].id);
                }
                counts[suit as usize] = counts[suit as usize] + 1;
            }
            mi += 1;
        }
        proof {
            assert(multipliers@.subrange(0, multipliers@.len() as int) =~= multipliers@);
            let h1 = hand_cards@.subrange(0, ci as int + 1);
            assert(h1.drop_last() =~= hand_cards@.subrange(0, ci as int));
            assert forall|s: int| 0 <= s < 4 implies #[trigger] counts@[s] == flash_count(
                h1,
                multipliers@,
                s as u8,
            ) by {
                assert(h1.last() / 13 == s <==> suit == s);
            }
        }
        ci += 1;
    }
    assert(hand_cards@.subrange(0, hand_cards@.len() as int) =~= hand_cards@);

    let mut max_flash: u8 = counts[0];
    if counts[1] > max_flash {
        max_flash = counts[1];
    }
    let m23 = if counts[2] >= counts[3] { counts[2] } else { counts[3] };
    if m23 > max_flash {
        max_flash = m23;
    }
    assert(max_flash == max_flash_count(hand_cards@, multipliers@));

    let multiplier: u64 = if is_flush && is_straight && max_flash == 3 {
        25
    } else if is_flush && max_flash == 3 {
        5
    } else if is_straight && max_flash >= 2 {
        4
    } else if max_flash >= 2 {
        2
    } else {
        1
    };
    saturating_mul_u64(base_payout, multiplier)
}

/// Generate Blitz Ultimate Texas Hold'em multipliers: 2 distinct ranks (0-12),
/// each a `Rank` entry with the marker multiplier 1. The ranks are distinct
/// unless the second draw read `u64::MAX` bytes past its first without
/// finding a new one.
pub fn generate_uth_multipliers(rng: &mut GameRng) -> (mults: Vec<SuperMultiplier>)
    ensures
        (mults@, final(rng)@) == uth_draw(old(rng)@),
        fresh_draws(old(rng)@, 2, 0, 13).2 ==> distinct_ids(mults@),
        mults@.len() == 2,
        mults@[0].id < 13 && mults@[1].id < 13,
        mults@[0].multiplier == 1 && mults@[1].multiplier == 1,
        mults@[0].super_type == SuperType::Rank && mults@[1].super_type == SuperType::Rank,
{
    let ghost p = rng@;
    let ids = draw_distinct(rng, 2, 0, 13);
    proof {
        lemma_fresh_draws(p, 2, 0, 13);
        lemma_marker_distinct(ids@, SuperType::Rank);
    }
    markers(ids.as_slice(), SuperType::Rank)
}

/// Hand ranking for UTH Blitz multiplier
#[derive(Clone, Copy, PartialEq, Eq, Structural, PartialOrd, Ord, Debug)]
pub enum UthHandRank {
    HighCard,
    Pair,
    TwoPair,
    ThreeOfAKind,
    Straight,
    Flush,
    FullHouse,
    FourOfAKind,
    StraightFlush,
    RoyalFlush,
}

/// Blitz multiplier for a hand strength.
pub open spec fn blitz_hand_multiplier(rank: UthHandRank) -> int {
    match rank {
        UthHandRank::HighCard => 1,
        UthHandRank::Pair => 2,
        UthHandRank::TwoPair => 3,
        UthHandRank::ThreeOfAKind => 5,
        UthHandRank::Straight => 4,
        UthHandRank::Flush => 4,
        UthHandRank::FullHouse => 6,
        UthHandRank::FourOfAKind => 15,
        UthHandRank::StraightFlush => 25,
        UthHandRank::RoyalFlush => 50,
    }
}

/// Whether some card of `cards` has a Blitz rank.
fn any_blitz(cards: &[u8], multipliers: &[SuperMultiplier]) -> (b: bool)
    ensures
        b == exists|i: int| 0 <= i < cards@.len() && is_blitz(cards@[i], multipliers@),
{
    let mut i: usize = 0;
    while i < cards.len()
        invariant
            i <= cards@.len(),
            forall|k: int| 0 <= k < i ==> !is_blitz(cards@[k], multipliers@),
        decreases cards@.len() - i,
    {
        if is_blitz_exec(cards[i], multipliers) {
            return true;
        }
        i += 1;
    }
    false
}

/// Whether every card of `cards` has a Blitz rank.
fn all_blitz(cards: &[u8], multipliers: &[SuperMultiplier]) -> (b: bool)
    ensures
        b == forall|i: int| 0 <= i < cards@.len() ==> is_blitz(cards@[i], multipliers@),
{
    let mut i: usize = 0;
    while i < cards.len()
        invariant
            i <= cards@.len(),
            forall|k: int| 0 <= k < i ==> is_blitz(cards@[k], multipliers@),
        decreases cards@.len() - i,
    {
        if !is_blitz_exec(cards[i], multipliers) {
            return false;
        }
        i += 1;
    }
    true
}

fn is_blitz_exec(card: u8, multipliers: &[SuperMultiplier]) -> (b: bool)
    ensures
        b == is_blitz(card, multipliers@),
{
    let rank = card % 13;
    let mut j: usize = 0;
    while j < multipliers.len()
        invariant
            j <= multipliers@.len(),
            rank == card % 13,
            forall|k: int|
                0 <= k < j ==> !(multipliers@[k].super_type == SuperType::Rank && card % 13
                    == multipliers@[k].id),
        decreases multipliers@.len() - j,
    {
        if multipliers[j].super_type == SuperType::Rank && rank == multipliers[j].id {
            return true;
        }
        j += 1;
    }
    false
}

/// Apply UTH Blitz multiplier: unchanged unless a card of the final hand has a
/// Blitz rank; then the hand-strength multiplier, raised to 5x when both hole
/// cards are Blitz ranks.
pub fn apply_uth_blitz_multiplier(
    final_hand: &[u8],
    hole_cards: &[u8],
    multipliers: &[SuperMultiplier],
    base_payout: u64,
    hand_rank: UthHandRank,
) -> (r: u64)
    ensures
        ({
            let any = exists|i: int| 0 <= i < final_hand@.len() && is_blitz(final_hand@[i], multipliers@);
            let both = forall|i: int| 0 <= i < hole_cards@.len() ==> is_blitz(hole_cards@[i], multipliers@);
            let hm = blitz_hand_multiplier(hand_rank);
            r == if !any {
                base_payout as int
            } else if both && hm < 5 {
                sat_mul(base_payout as int, 5)
            } else {
                sat_mul(base_payout as int, hm)
            }
        }),
{
    let has_blitz_in_hand = any_blitz(final_hand, multipliers);
    if !has_blitz_in_hand {
        return base_payout;
    }
    let both_hole_cards_blitz = all_blitz(hole_cards, multipliers);
    let hand_mult: u64 = match hand_rank {
        UthHandRank::HighCard => 1,
        UthHandRank::Pair => 2,
        UthHandRank::TwoPair => 3,
        UthHandRank::ThreeOfAKind => 5,
        UthHandRank::Straight => 4,
        UthHandRank::Flush => 4,
        UthHandRank::FullHouse => 6,
        UthHandRank::FourOfAKind => 15,
        UthHandRank::StraightFlush => 25,
        UthHandRank::RoyalFlush => 50,
    };
    let final_mult = if both_hole_cards_blitz && hand_mult < 5 {
        5
    } else {
        hand_mult
    };
    saturating_mul_u64(base_payout, final_mult)
}

/// Generate Strike Casino War multipliers: 3 distinct ranks (0-12), each a
/// `Rank` entry with the marker multiplier 1. The ranks are distinct unless a
/// draw read `u64::MAX` bytes past its first without finding a new one.
pub fn generate_casino_war_multipliers(rng: &mut GameRng) -> (mults: Vec<SuperMultiplier>)
    ensures
        (mults@, final(rng)@) == casino_war_draw(old(rng)@),
        fresh_draws(old(rng)@, 3, 0, 13).2 ==> distinct_ids(mults@),
        mults@.len() == 3,
        forall|i: int|
            0 <= i < 3 ==> {
                let m = #[trigger] mults@[i];
                &&& m.id < 13
                &&& m.multiplier == 1
                &&& m.super_type == SuperType::Rank
            },
{
    let ghost p = rng@;
    let ids = draw_distinct(rng, 3, 0, 13);
    proof {
        lemma_fresh_draws(p, 3, 0, 13);
        lemma_marker_distinct(ids@, SuperType::Rank);
    }
    markers(ids.as_slice(), SuperType::Rank)
}

/// Apply Casino War Strike multiplier: 5x for a tie on the same Strike rank
/// followed by a won war, 3x when both cards are Strike ranks and the war is
/// won, 2x when the player's card is a Strike rank, else unchanged.
pub fn apply_casino_war_strike_multiplier(
    player_card: u8,
    dealer_card: u8,
    multipliers: &[SuperMultiplier],
    base_payout: u64,
    won_war: bool,
    was_tie: bool,
) -> (r: u64)
    ensures
        ({
            let p = is_blitz(player_card, multipliers@);
            let d = is_blitz(dealer_card, multipliers@);
            let m = if was_tie && player_card % 13 == dealer_card % 13 && p && won_war {
                5
            } else if p && d && won_war {
                3
            } else if p {
                2
            } else {
                1int
            };
            r == sat_mul(base_payout as int, m)
        }),
{
    let player_rank = player_card % 13;
    let dealer_rank = dealer_card % 13;
    let player_is_strike = is_blitz_exec(player_card, multipliers);
    let dealer_is_strike = is_blitz_exec(dealer_card, multipliers);
    let multiplier: u64 = if was_tie && player_rank == dealer_rank && player_is_strike && won_war {
        5
    } else if player_is_strike && dealer_is_strike && won_war {
        3
    } else if player_is_strike {
        2
    } else {
        1
    };
    saturating_mul_u64(base_payout, multiplier)
}

/// Generate Super HiLo state for a streak: active, one placeholder multiplier
/// holding the streak multiplier in tenths, and the streak level.
pub fn generate_hilo_state(streak: u8) -> (s: SuperModeState)
    ensures
        s.is_active,
        s.streak_level == streak,
        s.multipliers@ == seq![
            SuperMultiplier {
                id: 0,
                multiplier: hilo_streak_tenths(streak),
                super_type: SuperType::Card,
            },
        ],
{
    let base_mult = streak_tenths(streak);
    let s = SuperModeState {
        is_active: true,
        multipliers: vec![SuperMultiplier { id: 0, multiplier: base_mult, super_type: SuperType::Card }],
        streak_level: streak,
    };
    assert(s.multipliers@ =~= seq![
        SuperMultiplier { id: 0, multiplier: hilo_streak_tenths(streak), super_type: SuperType::Card },
    ]);
    s
}

/// Apply HiLo streak multiplier to payout: the streak multiplier in tenths,
/// tripled on an ace, applied (saturating) and divided by 10.
pub fn apply_hilo_streak_multiplier(base_payout: u64, streak: u8, was_ace: bool) -> (r: u64)
    ensures
        r == sat_mul(
            base_payout as int,
            if was_ace {
                hilo_streak_tenths(streak) * 3
            } else {
                hilo_streak_tenths(streak) as int
            },
        ) / 10,
{
    let mult = streak_tenths(streak);
    let final_mult = if was_ace {
        mult * 3
    } else {
        mult
    };
    saturating_mul_u64(base_payout, final_mult as u64) / 10
}

/// Apply super multiplier for card-based games: every (card, multiplier)
/// match multiplies the payout, saturating.
pub fn apply_super_multiplier_cards(
    winning_cards: &[u8],
    multipliers: &[SuperMultiplier],
    base_payout: u64,
) -> (r: u64)
    ensures
        r == sat_mul(base_payout as int, cards_product(winning_cards@, multipliers@)),
{
    let mut total_mult: u64 = 1;
    let mut ci: usize = 0;
    while ci < winning_cards.len()
        invariant
            ci <= winning_cards@.len(),
            total_mult == cards_product(winning_cards@.subrange(0, ci as int), multipliers@),
        decreases winning_cards@.len() - ci,
    {
        let card = winning_cards[ci];
        let ghost start = total_mult as int;
        let mut mi: usize = 0;
        while mi < multipliers.len()
            invariant
                mi <= multipliers@.len(),
                total_mult == card_product(card, multipliers@.subrange(0, mi as int), start),
                0 <= start <= u64::MAX,
            decreases multipliers@.len() - mi,
        {
            proof {
                assert(multipliers@.subrange(0, mi as int + 1).drop_last() =~= multipliers@.subrange(0, mi as int));
            }
            if card_matches_exec(card, &multipliers[mi]) {
                total_mult = saturating_mul_u64(total_mult, multipliers[mi].multiplier as u64);
            }
            mi += 1;
        }
        proof {
            assert(multipliers@.subrange(0, multipliers@.len() as int) =~= multipliers@);
            let w1 = winning_cards@.subrange(0, ci as int + 1);
            assert(w1.drop_last() =~= winning_cards@.subrange(0, ci as int));
        }
        ci += 1;
    }
    assert(winning_cards@.subrange(0, winning_cards@.len() as int) =~= winning_cards@);
    saturating_mul_u64(base_payout, total_mult)
}

/// The multiplier of the first entry of type `t` and id `id`, or 1.
fn first_keyed(multipliers: &[SuperMultiplier], t: SuperType, id: u8) -> (m: u64)
    ensures
        m == keyed_multiplier(multipliers@, t, id),
{
    let mut i: usize = 0;
    assert(multipliers@.subrange(0, multipliers@.len() as int) =~= multipliers@);
    while i < multipliers.len()
        invariant
            i <= multipliers@.len(),
            keyed_multiplier(multipliers@, t, id) == keyed_multiplier(
                multipliers@.subrange(i as int, multipliers@.len() as int),
                t,
                id,
            ),
        decreases multipliers@.len() - i,
    {
        proof {
            let rest = multipliers@.subrange(i as int, multipliers@.len() as int);
            assert(rest.drop_first() =~= multipliers@.subrange(i as int + 1, multipliers@.len() as int));
        }
        if multipliers[i].super_type == t && multipliers[i].id == id {
            return multipliers[i].multiplier as u64;
        }
        i += 1;
    }
    1
}

/// Apply super multiplier for number-based games (Roulette): the first
/// `Number` entry for the result multiplies the payout, saturating.
pub fn apply_super_multiplier_number(
    result: u8,
    multipliers: &[SuperMultiplier],
    base_payout: u64,
) -> (r: u64)
    ensures
        r == sat_mul(base_payout as int, keyed_multiplier(multipliers@, SuperType::Number, result)),
{
    let m = first_keyed(multipliers, SuperType::Number, result);
    if m == 1 && !exists_keyed(multipliers, SuperType::Number, result) {
        return base_payout;
    }
    saturating_mul_u64(base_payout, m)
}

/// Apply super multiplier for total-based games (Sic Bo, Craps): the first
/// `Total` entry for the total multiplies the payout, saturating.
pub fn apply_super_multiplier_total(
    total: u8,
    multipliers: &[SuperMultiplier],
    base_payout: u64,
) -> (r: u64)
    ensures
        r == sat_mul(base_payout as int, keyed_multiplier(multipliers@, SuperType::Total, total)),
{
    let m = first_keyed(multipliers, SuperType::Total, total);
    if m == 1 && !exists_keyed(multipliers, SuperType::Total, total) {
        return base_payout;
    }
    saturating_mul_u64(base_payout, m)
}

/// Whether some entry has type `t` and id `id`.
fn exists_keyed(multipliers: &[SuperMultiplier], t: SuperType, id: u8) -> (b: bool)
    ensures
        b == exists|i: int|
            0 <= i < multipliers@.len() && multipliers@[i].super_type == t && multipliers@[i].id == id,
{
    let mut i: usize = 0;
    while i < multipliers.len()
        invariant
            i <= multipliers@.len(),
            forall|k: int| 0 <= k < i ==> !(multipliers@[k].super_type == t && multipliers@[k].id == id),
        decreases multipliers@.len() - i,
    {
        if multipliers[i].super_type == t && multipliers[i].id == id {
            return true;
        }
        i += 1;
    }
    false
}

// ============================================================================
// Aura Meter System (Cross-Game Feature)
// ============================================================================

/// Maximum Aura Meter value (triggers Super Aura Round)
pub const AURA_METER_MAX: u8 = 5;

/// Update the player's Aura Meter based on round outcome: a near miss (an aura
/// element appeared but the round was lost) raises it by one up to the maximum,
/// a win resets it, anything else keeps it.
pub fn update_aura_meter(current_meter: u8, had_aura_element: bool, won: bool) -> (m: u8)
    requires
        had_aura_element && !won ==> current_meter < 255,
    ensures
        m == if had_aura_element && !won {
            if current_meter + 1 < 5 {
                current_meter + 1
            } else {
                5
            }
        } else if won {
            0
        } else {
            current_meter as int
        },
{
    if had_aura_element && !won {
        let next = current_meter + 1;
        if next < AURA_METER_MAX {
            next
        } else {
            AURA_METER_MAX
        }
    } else if won {
        0
    } else {
        current_meter
    }
}

/// Check if the player qualifies for a Super Aura Round.
pub fn is_super_aura_round(aura_meter: u8) -> (b: bool)
    ensures
        b == (aura_meter >= 5),
{
    aura_meter >= AURA_METER_MAX
}

/// Reset the Aura Meter after a Super Aura Round completes.
pub fn reset_aura_meter() -> (m: u8)
    ensures
        m == 0,
{
    0
}

/// `a` is `b` with its multiplier raised by half (rounded down).
pub open spec fn is_boosted(a: SuperMultiplier, b: SuperMultiplier) -> bool {
    &&& a.multiplier == b.multiplier * 3 / 2
    &&& a.id == b.id
    &&& a.super_type == b.super_type
}

/// Boost multipliers by 1.5x (rounded down) for a Super Aura Round.
pub fn enhance_multipliers_for_aura_round(multipliers: &mut [SuperMultiplier])
    requires
        forall|i: int| 0 <= i < old(multipliers)@.len() ==> #[trigger] old(multipliers)@[i].multiplier <= u16::MAX / 3,
    ensures
        final(multipliers)@.len() == old(multipliers)@.len(),
        forall|i: int|
            0 <= i < old(multipliers)@.len() ==> is_boosted(#[trigger] final(multipliers)@[i], old(multipliers)@[i]),
{
    let ghost orig = multipliers@;
    let mut i: usize = 0;
    while i < multipliers.len()
        invariant
            orig == old(multipliers)@,
            i <= multipliers@.len(),
            multipliers@.len() == orig.len(),
            forall|k: int| 0 <= k < orig.len() ==> #[trigger] orig[k].multiplier <= u16::MAX / 3,
            forall|k: int| 0 <= k < i ==> is_boosted(#[trigger] multipliers@[k], orig[k]),
            forall|k: int| i <= k < multipliers@.len() ==> #[trigger] multipliers@[k] == orig[k],
        decreases multipliers@.len() - i,
    {
        let m = multipliers[i];
        let ghost prev = multipliers@;
        assert(m == orig[i as int]);
        let boosted = (m.multiplier * 3) / 2;
        multipliers[i] = SuperMultiplier { id: m.id, multiplier: boosted, super_type: m.super_type };
        assert(multipliers@ =~= prev.update(i as int, multipliers@[i as int]));
        assert(is_boosted(multipliers@[i as int], orig[i as int]));
        assert forall|k: int| 0 <= k < i + 1 implies is_boosted(#[trigger] multipliers@[k], orig[k]) by {
            if k < i {
                assert(multipliers@[k] == prev[k]);
                assert(is_boosted(prev[k], orig[k]));
            }
        }
        i += 1;
    }
}

/// Whether an outcome card matches a card/rank/suit entry, an outcome number a
/// `Number` entry, or an outcome total a `Total` entry.
pub open spec fn aura_present(
    cards: Seq<u8>,
    numbers: Seq<u8>,
    totals: Seq<u8>,
    mults: Seq<SuperMultiplier>,
) -> bool {
    ||| exists|i: int, j: int|
        0 <= i < cards.len() && 0 <= j < mults.len() && card_matches(cards[i], mults[j])
    ||| exists|i: int, j: int|
        0 <= i < numbers.len() && 0 <= j < mults.len() && mults[j].super_type == SuperType::Number
            && numbers[i] == mults[j].id
    ||| exists|i: int, j: int|
        0 <= i < totals.len() && 0 <= j < mults.len() && mults[j].super_type == SuperType::Total
            && totals[i] == mults[j].id
}

/// Whether some card of `cards` matches some entry.
fn any_card_match(cards: &[u8], multipliers: &[SuperMultiplier]) -> (b: bool)
    ensures
        b == exists|i: int, j: int|
            0 <= i < cards@.len() && 0 <= j < multipliers@.len() && card_matches(cards@[i], multipliers@[j]),
{
    let mut i: usize = 0;
    while i < cards.len()
        invariant
            i <= cards@.len(),
            forall|a: int, b: int|
                0 <= a < i && 0 <= b < multipliers@.len() ==> !card_matches(cards@[a], multipliers@[b]),
        decreases cards@.len() - i,
    {
        let mut j: usize = 0;
        while j < multipliers.len()
            invariant
                i < cards@.len(),
                j <= multipliers@.len(),
                forall|a: int, b: int|
                    0 <= a < i && 0 <= b < multipliers@.len() ==> !card_matches(cards@[a], multipliers@[b]),
                forall|b: int| 0 <= b < j ==> !card_matches(cards@[i as int], multipliers@[b]),
            decreases multipliers@.len() - j,
        {
            if card_matches_exec(cards[i], &multipliers[j]) {
                return true;
            }
            j += 1;
        }
        i += 1;
    }
    false
}

/// Whether some value of `values` equals the id of some entry of type `t`.
fn any_keyed_match(values: &[u8], multipliers: &[SuperMultiplier], t: SuperType) -> (b: bool)
    ensures
        b == exists|i: int, j: int|
            0 <= i < values@.len() && 0 <= j < multipliers@.len() && multipliers@[j].super_type == t
                && values@[i] == multipliers@[j].id,
{
    let mut i: usize = 0;
    while i < values.len()
        invariant
            i <= values@.len(),
            forall|a: int, b: int|
                0 <= a < i && 0 <= b < multipliers@.len() ==> !(multipliers@[b].super_type == t
                    && values@[a] == multipliers@[b].id),
        decreases values@.len() - i,
    {
        if exists_keyed(multipliers, t, values[i]) {
            return true;
        }
        i += 1;
    }
    false
}

/// Check if any of the outcome elements match Aura elements (a "near miss"
/// when the round is lost).
pub fn check_aura_element_presence(
    outcome_cards: &[u8],
    outcome_numbers: &[u8],
    outcome_totals: &[u8],
    multipliers: &[SuperMultiplier],
) -> (b: bool)
    ensures
        b == aura_present(outcome_cards@, outcome_numbers@, outcome_totals@, multipliers@),
{
    if any_card_match(outcome_cards, multipliers) {
        return true;
    }
    if any_keyed_match(outcome_numbers, multipliers, SuperType::Number) {
        return true;
    }
    any_keyed_match(outcome_totals, multipliers, SuperType::Total)
}

} // verus!
