//! Ultimate Texas Hold'em.
//!
//! Bets: ante and blind (both the session bet; the ante is taken when the
//! session starts, the blind by `init`), an optional Trips, 6-card bonus and
//! progressive side bet (placed before the deal), and one play bet of 4x or 3x
//! the ante before the flop, 2x after it, or 1x on the river.
//!
//! State blob, version 3 (40 bytes): `[3] [stage] [player: 2] [community: 5]
//! [dealer: 2] [play multiplier] [bonus cards: 4] [trips:u64 BE] [six-card
//! bonus:u64 BE] [progressive:u64 BE]`; version 2 (32 bytes) lacks the
//! progressive bet; version 1 (20 bytes) is `[1] [stage] [player: 2]
//! [community: 5] [dealer: 2] [play multiplier] [trips:u64 BE]`. A card not
//! revealed yet is `0xFF`. Stages: 0 betting, 1 preflop, 2 flop, 3 river,
//! 4 awaiting reveal, 5 showdown.
//!
//! Payload: `[action] [amount:u64 BE]?` with actions 0 check, 1 bet 4x, 2 bet
//! 2x, 3 bet 1x, 4 fold, 5 deal (with an optional Trips amount), 6 set Trips,
//! 7 reveal, 8 bet 3x, 9 set 6-card bonus, 10 set progressive.

use super::common::{be_u64, rank_ace_high, read_u64_be, sat_add, sat_mul, saturating_mul_u64, u64_as_i64, u64_be_bytes, push_u64_be, wrap_i64, lemma_u64_be_roundtrip};
use super::rng::{card_draw, draw_from, lemma_remove_each_len, lemma_swap_multiset, ordered_deck, ordered_shoe, remove_each, seq_swap, shuffled, GameRng, RngPoint};
use super::session::{session_fields_kept, GameSession, SuperMultiplier};
use super::super_mode::{apply_super_multiplier_cards, cards_product};
use super::three_card::{bet_change, bet_delta, continue_result, continue_with, count_rank, has_rank, max2, min2, parse_u64_be, payload_amount, rank_count};
use super::{CasinoGame, GameError, GameResult};
use vstd::prelude::*;
use vstd::relations::{sorted_by, total_ordering};

verus! {

// ============================================================================
// Hand evaluation
// ============================================================================

/// Texas Hold'em hand rankings, weakest first.
#[derive(Clone, Copy, Debug, PartialEq, Eq, Structural)]
pub enum HandRank {
    HighCard,
    Pair,
    TwoPair,
    ThreeOfAKind,
    Straight,
    Flush,
    FullHouse,
    FourOfAKind,
    StraightFlush,
    RoyalFlush,
}

/// Strength of a hand rank: 0 for high card up to 9 for a royal flush.
pub open spec fn rank_level(r: HandRank) -> u8 {
    match r {
        HandRank::HighCard => 0,
        HandRank::Pair => 1,
        HandRank::TwoPair => 2,
        HandRank::ThreeOfAKind => 3,
        HandRank::Straight => 4,
        HandRank::Flush => 5,
        HandRank::FullHouse => 6,
        HandRank::FourOfAKind => 7,
        HandRank::StraightFlush => 8,
        HandRank::RoyalFlush => 9,
    }
}

/// Strength of a hand rank.
pub fn hand_rank_level(r: HandRank) -> (l: u8)
    ensures
        l == rank_level(r),
{
    match r {
        HandRank::HighCard => 0,
        HandRank::Pair => 1,
        HandRank::TwoPair => 2,
        HandRank::ThreeOfAKind => 3,
        HandRank::Straight => 4,
        HandRank::Flush => 5,
        HandRank::FullHouse => 6,
        HandRank::FourOfAKind => 7,
        HandRank::StraightFlush => 8,
        HandRank::RoyalFlush => 9,
    }
}

/// Card rank (2-14, ace = 14).
pub fn card_rank(card: u8) -> (r: u8)
    ensures
        r == rank_ace_high(card),
        2 <= r <= 14,
{
    let r = (card % 13) + 1;
    if r == 1 {
        14
    } else {
        r
    }
}

/// Card suit.
pub fn card_suit(card: u8) -> (s: u8)
    ensures
        s == card / 13,
{
    card / 13
}

/// The order "at least", by which kickers are sorted (descending).
pub open spec fn desc_order() -> spec_fn(u8, u8) -> bool {
    |a: u8, b: u8| a >= b
}

/// "At least" is a total order.
pub proof fn lemma_desc_order_total()
    ensures
        total_ordering(desc_order()),
{
    let r = desc_order();
    assert(vstd::relations::reflexive(r));
    assert(vstd::relations::antisymmetric(r));
    assert(vstd::relations::transitive(r));
    assert(vstd::relations::strongly_connected(r));
}

/// Ranks (ace high) of a sequence of cards.
pub open spec fn ranks_of(cards: Seq<u8>) -> Seq<u8> {
    cards.map_values(|c: u8| rank_ace_high(c))
}

/// The kickers of five cards: their ranks sorted from high to low.
pub open spec fn kickers5(cards: Seq<u8>) -> Seq<u8> {
    ranks_of(cards).sort_by(desc_order())
}

/// How many rank values below `n` occur exactly `k` times in `rs`.
pub open spec fn ranks_with_count(rs: Seq<u8>, k: nat, n: nat) -> nat
    decreases n,
{
    if n == 0 {
        0
    } else {
        ranks_with_count(rs, k, (n - 1) as nat) + if rank_count(rs, (n - 1) as u8) == k {
            1nat
        } else {
            0nat
        }
    }
}

/// Rank of five cards.
pub open spec fn rank5(cards: Seq<u8>) -> HandRank {
    let rs = ranks_of(cards);
    let has = |r: u8| rank_count(rs, r) >= 1;
    let flush = cards[0] / 13 == cards[1] / 13 && cards[1] / 13 == cards[2] / 13 && cards[2] / 13
        == cards[3] / 13 && cards[3] / 13 == cards[4] / 13;
    let distinct = rank_count(rs, rs[0]) == 1 && rank_count(rs, rs[1]) == 1 && rank_count(rs, rs[2])
        == 1 && rank_count(rs, rs[3]) == 1 && rank_count(rs, rs[4]) == 1;
    let hi = max2(max2(max2(max2(rs[0], rs[1]), rs[2]), rs[3]), rs[4]);
    let lo = min2(min2(min2(min2(rs[0], rs[1]), rs[2]), rs[3]), rs[4]);
    let straight = distinct && (hi - lo == 4 || (has(2) && has(3) && has(4) && has(5) && has(14)));
    let royal = has(10) && has(11) && has(12) && has(13) && has(14);
    let pairs = ranks_with_count(rs, 2, 15);
    let trips = ranks_with_count(rs, 3, 15) >= 1;
    let quads = ranks_with_count(rs, 4, 15) >= 1;
    if royal && flush {
        HandRank::RoyalFlush
    } else if straight && flush {
        HandRank::StraightFlush
    } else if quads {
        HandRank::FourOfAKind
    } else if trips && pairs >= 1 {
        HandRank::FullHouse
    } else if flush {
        HandRank::Flush
    } else if straight {
        HandRank::Straight
    } else if trips {
        HandRank::ThreeOfAKind
    } else if pairs >= 2 {
        HandRank::TwoPair
    } else if pairs == 1 {
        HandRank::Pair
    } else {
        HandRank::HighCard
    }
}

/// How many of five ranks equal `r`, counted one by one.
proof fn lemma_rank_count5(rs: Seq<u8>)
    requires
        rs.len() == 5,
    ensures
        forall|r: u8|
            #[trigger] rank_count(rs, r) == (if rs[0] == r {
                1int
            } else {
                0
            }) + (if rs[1] == r {
                1int
            } else {
                0
            }) + (if rs[2] == r {
                1int
            } else {
                0
            }) + (if rs[3] == r {
                1int
            } else {
                0
            }) + (if rs[4] == r {
                1int
            } else {
                0
            }),
{
    let s4 = rs.drop_last();
    let s3 = s4.drop_last();
    let s2 = s3.drop_last();
    let s1 = s2.drop_last();
    let s0 = s1.drop_last();
    assert(s0.len() == 0);
    assert forall|r: u8|
        #[trigger] rank_count(rs, r) == (if rs[0] == r {
            1int
        } else {
            0
        }) + (if rs[1] == r {
            1int
        } else {
            0
        }) + (if rs[2] == r {
            1int
        } else {
            0
        }) + (if rs[3] == r {
            1int
        } else {
            0
        }) + (if rs[4] == r {
            1int
        } else {
            0
        }) by {
        assert(rank_count(s0, r) == 0);
        assert(rank_count(s1, r) == rank_count(s0, r) + if s1.last() == r {
            1nat
        } else {
            0nat
        });
        assert(rank_count(s2, r) == rank_count(s1, r) + if s2.last() == r {
            1nat
        } else {
            0nat
        });
        assert(rank_count(s3, r) == rank_count(s2, r) + if s3.last() == r {
            1nat
        } else {
            0nat
        });
        assert(rank_count(s4, r) == rank_count(s3, r) + if s4.last() == r {
            1nat
        } else {
            0nat
        });
    }
}

/// The ranks held exactly `k` times are `a` and `b` (the same when one).
proof fn lemma_ranks_with_count_at(rs: Seq<u8>, k: nat, a: int, b: int, n: nat)
    requires
        n <= 15,
        a >= 0,
        b >= 0,
        forall|r: u8| r < 15 ==> (#[trigger] rank_count(rs, r) == k <==> (r == a || r == b)),
    ensures
        ranks_with_count(rs, k, n) == (if a < n {
            1int
        } else {
            0
        }) + (if b < n && b != a {
            1int
        } else {
            0
        }),
    decreases n,
{
    if n > 0 {
        lemma_ranks_with_count_at(rs, k, a, b, (n - 1) as nat);
        let r: u8 = (n - 1) as u8;
        assert(r == n - 1);
        assert(rank_count(rs, r) == k <==> (r == a || r == b));
        assert(ranks_with_count(rs, k, n) == ranks_with_count(rs, k, (n - 1) as nat) + if rank_count(
            rs,
            r,
        ) == k {
            1nat
        } else {
            0nat
        });
    }
}

/// Five different cards grouped by rank (aces high), the groups first: four
/// of a rank and one other make four of a kind; three and two a full house;
/// three and two odd cards three of a kind; two pairs and an odd card two
/// pair; one pair and three odd cards a pair.
pub proof fn lemma_grouped_hands(c: Seq<u8>)
    requires
        c.len() == 5,
        forall|k: int| 0 <= k < 5 ==> c[k] < 52,
        c.no_duplicates(),
    ensures
        ({
            let r0 = rank_ace_high(c[0]);
            let r1 = rank_ace_high(c[1]);
            let r2 = rank_ace_high(c[2]);
            let r3 = rank_ace_high(c[3]);
            let r4 = rank_ace_high(c[4]);
            &&& r0 == r1 && r1 == r2 && r2 == r3 && r4 != r0 ==> rank5(c) == HandRank::FourOfAKind
            &&& r0 == r1 && r1 == r2 && r3 == r4 && r3 != r0 ==> rank5(c) == HandRank::FullHouse
            &&& r0 == r1 && r1 == r2 && r3 != r0 && r4 != r0 && r3 != r4 ==> rank5(c)
                == HandRank::ThreeOfAKind
            &&& r0 == r1 && r2 == r3 && r0 != r2 && r4 != r0 && r4 != r2 ==> rank5(c)
                == HandRank::TwoPair
            &&& r0 == r1 && r0 != r2 && r0 != r3 && r0 != r4 && r2 != r3 && r2 != r4 && r3 != r4
                ==> rank5(c) == HandRank::Pair
        }),
{
    let rs = ranks_of(c);
    assert(rs.len() == 5);
    assert(rs[0] == rank_ace_high(c[0]) && rs[1] == rank_ace_high(c[1]) && rs[2] == rank_ace_high(
        c[2],
    ) && rs[3] == rank_ace_high(c[3]) && rs[4] == rank_ace_high(c[4]));
    lemma_rank_count5(rs);
    assert(c[0] != c[1]);
    let (r0, r1, r2, r3, r4) = (rs[0], rs[1], rs[2], rs[3], rs[4]);
    if r0 == r1 {
        assert(c[0] % 13 == c[1] % 13);
        assert(c[0] / 13 != c[1] / 13);
        assert(rank_count(rs, rs[0]) >= 2);
        if r1 == r2 && r2 == r3 && r4 != r0 {
            lemma_ranks_with_count_at(rs, 4, r0 as int, r0 as int, 15);
        } else if r1 == r2 && r3 == r4 && r3 != r0 {
            lemma_ranks_with_count_at(rs, 4, 100, 100, 15);
            lemma_ranks_with_count_at(rs, 3, r0 as int, r0 as int, 15);
            lemma_ranks_with_count_at(rs, 2, r3 as int, r3 as int, 15);
        } else if r1 == r2 && r3 != r0 && r4 != r0 && r3 != r4 {
            lemma_ranks_with_count_at(rs, 4, 100, 100, 15);
            lemma_ranks_with_count_at(rs, 3, r0 as int, r0 as int, 15);
            lemma_ranks_with_count_at(rs, 2, 100, 100, 15);
        } else if r2 == r3 && r0 != r2 && r4 != r0 && r4 != r2 {
            lemma_ranks_with_count_at(rs, 4, 100, 100, 15);
            lemma_ranks_with_count_at(rs, 3, 100, 100, 15);
            lemma_ranks_with_count_at(rs, 2, r0 as int, r2 as int, 15);
        } else if r0 != r2 && r0 != r3 && r0 != r4 && r2 != r3 && r2 != r4 && r3 != r4 {
            lemma_ranks_with_count_at(rs, 4, 100, 100, 15);
            lemma_ranks_with_count_at(rs, 3, 100, 100, 15);
            lemma_ranks_with_count_at(rs, 2, r0 as int, r0 as int, 15);
        }
    }
}

/// Sorts a sequence of bytes from high to low.
fn sort_desc(v: &mut Vec<u8>)
    ensures
        final(v)@.to_multiset() == old(v)@.to_multiset(),
        final(v)@.len() == old(v)@.len(),
        sorted_by(final(v)@, desc_order()),
{
    let n = v.len();
    let ghost orig = v@;
    let mut i: usize = 1;
    while i < n
        invariant
            v@.len() == n,
            v@.to_multiset() == orig.to_multiset(),
            1 <= i || n == 0,
            forall|a: int, b: int| 0 <= a < b < i && b < n ==> #[trigger] v@[a] >= #[trigger] v@[b],
        decreases n - i,
    {
        let mut j: usize = i;
        while j > 0 && v[j - 1] < v[j]
            invariant
                v@.len() == n,
                v@.to_multiset() == orig.to_multiset(),
                j <= i < n,
                forall|a: int, b: int|
                    0 <= a < b <= i && a != j && b != j ==> #[trigger] v@[a] >= #[trigger] v@[b],
                forall|b: int| j < b <= i ==> v@[j as int] > #[trigger] v@[b],
            decreases j,
        {
            let x = v[j];
            let y = v[j - 1];
            let ghost before = v@;
            proof {
                lemma_swap_multiset(before, j as int - 1, j as int);
            }
            v.set(j - 1, x);
            v.set(j, y);
            assert(v@ =~= seq_swap(before, j as int - 1, j as int));
            j -= 1;
        }
        i += 1;
    }
}

/// The kickers of five ranks, sorted from high to low.
fn sorted_kickers(ranks: &[u8; 5]) -> (k: [u8; 5])
    ensures
        k@ == ranks@.sort_by(desc_order()),
{
    let mut v: Vec<u8> = Vec::new();
    v.push(ranks[0]);
    v.push(ranks[1]);
    v.push(ranks[2]);
    v.push(ranks[3]);
    v.push(ranks[4]);
    assert(v@ =~= ranks@);
    sort_desc(&mut v);
    let k: [u8; 5] = [v[0], v[1], v[2], v[3], v[4]];
    assert(k@ =~= v@);
    proof {
        lemma_desc_order_total();
        ranks@.lemma_sort_by_ensures(desc_order());
        vstd::seq_lib::lemma_sorted_unique(k@, ranks@.sort_by(desc_order()), desc_order());
    }
    k
}

/// How many rank values below `n` occur exactly `k` times.
fn count_ranks_with(ranks: &[u8; 5], k: u8, n: u8) -> (c: u8)
    requires
        n <= 15,
    ensures
        c == ranks_with_count(ranks@, k as nat, n as nat),
{
    let mut c: u8 = 0;
    let mut r: u8 = 0;
    while r < n
        invariant
            r <= n <= 15,
            c == ranks_with_count(ranks@, k as nat, r as nat),
            c <= r,
        decreases n - r,
    {
        if count_rank(ranks, r) == k {
            c += 1;
        }
        r += 1;
    }
    c
}

/// Evaluate five cards: the hand rank and the kickers (ranks, high to low).
pub fn evaluate_5_card_fast(cards: &[u8; 5]) -> (r: (HandRank, [u8; 5]))
    ensures
        r.0 == rank5(cards@),
        r.1@ == kickers5(cards@),
{
    let ranks: [u8; 5] = [
        card_rank(cards[0]),
        card_rank(cards[1]),
        card_rank(cards[2]),
        card_rank(cards[3]),
        card_rank(cards[4]),
    ];
    let ghost rs = ranks_of(cards@);
    assert(ranks@ =~= rs);
    let kickers = sorted_kickers(&ranks);
    let is_flush = card_suit(cards[0]) == card_suit(cards[1]) && card_suit(cards[1]) == card_suit(
        cards[2],
    ) && card_suit(cards[2]) == card_suit(cards[3]) && card_suit(cards[3]) == card_suit(cards[4]);
    let distinct = count_rank(&ranks, ranks[0]) == 1 && count_rank(&ranks, ranks[1]) == 1
        && count_rank(&ranks, ranks[2]) == 1 && count_rank(&ranks, ranks[3]) == 1 && count_rank(
        &ranks,
        ranks[4],
    ) == 1;
    let mut hi = ranks[0];
    let mut lo = ranks[0];
    let mut i: usize = 1;
    while i < 5
        invariant
            1 <= i <= 5,
            ranks@ == rs,
            hi == (if i == 1 {
                rs[0]
            } else if i == 2 {
                max2(rs[0], rs[1])
            } else if i == 3 {
                max2(max2(rs[0], rs[1]), rs[2])
            } else if i == 4 {
                max2(max2(max2(rs[0], rs[1]), rs[2]), rs[3])
            } else {
                max2(max2(max2(max2(rs[0], rs[1]), rs[2]), rs[3]), rs[4])
            }),
            lo == (if i == 1 {
                rs[0]
            } else if i == 2 {
                min2(rs[0], rs[1])
            } else if i == 3 {
                min2(min2(rs[0], rs[1]), rs[2])
            } else if i == 4 {
                min2(min2(min2(rs[0], rs[1]), rs[2]), rs[3])
            } else {
                min2(min2(min2(min2(rs[0], rs[1]), rs[2]), rs[3]), rs[4])
            }),
        decreases 5 - i,
    {
        if ranks[i] > hi {
            hi = ranks[i];
        }
        if ranks[i] < lo {
            lo = ranks[i];
        }
        i += 1;
    }
    let is_wheel = has_rank(&ranks, 2) && has_rank(&ranks, 3) && has_rank(&ranks, 4) && has_rank(
        &ranks,
        5,
    ) && has_rank(&ranks, 14);
    let is_straight = distinct && (hi - lo == 4 || is_wheel);
    let is_royal = has_rank(&ranks, 10) && has_rank(&ranks, 11) && has_rank(&ranks, 12) && has_rank(
        &ranks,
        13,
    ) && has_rank(&ranks, 14);
    let pair_count = count_ranks_with(&ranks, 2, 15);
    let has_trips = count_ranks_with(&ranks, 3, 15) >= 1;
    let has_quads = count_ranks_with(&ranks, 4, 15) >= 1;
    let hand_rank = if is_royal && is_flush {
        HandRank::RoyalFlush
    } else if is_straight && is_flush {
        HandRank::StraightFlush
    } else if has_quads {
        HandRank::FourOfAKind
    } else if has_trips && pair_count >= 1 {
        HandRank::FullHouse
    } else if is_flush {
        HandRank::Flush
    } else if is_straight {
        HandRank::Straight
    } else if has_trips {
        HandRank::ThreeOfAKind
    } else if pair_count >= 2 {
        HandRank::TwoPair
    } else if pair_count == 1 {
        HandRank::Pair
    } else {
        HandRank::HighCard
    };
    (hand_rank, kickers)
}

/// Whether kickers `a` beat kickers `b` (first difference, high to low).
pub open spec fn kickers_greater(a: Seq<u8>, b: Seq<u8>) -> bool {
    if a[0] != b[0] {
        a[0] > b[0]
    } else if a[1] != b[1] {
        a[1] > b[1]
    } else if a[2] != b[2] {
        a[2] > b[2]
    } else if a[3] != b[3] {
        a[3] > b[3]
    } else {
        a[4] > b[4]
    }
}

/// Whether one evaluated hand beats another: higher rank, or equal rank and
/// higher kickers.
pub open spec fn beats(a: (HandRank, Seq<u8>), b: (HandRank, Seq<u8>)) -> bool {
    rank_level(a.0) > rank_level(b.0) || (a.0 == b.0 && kickers_greater(a.1, b.1))
}

/// Evaluation of five cards.
pub open spec fn eval5(cards: Seq<u8>) -> (HandRank, Seq<u8>) {
    (rank5(cards), kickers5(cards))
}

/// The five cards left when cards `i` and `j` (`i < j`) of seven are set aside.
pub open spec fn combo(cards: Seq<u8>, i: int, j: int) -> Seq<u8> {
    cards.remove(j).remove(i)
}

/// The best of `acc` and the hands leaving out card `i` and one of the cards
/// `i + 1 .. j`, taken in order; a later hand replaces the best only when it
/// beats it.
pub open spec fn best_in_row(cards: Seq<u8>, i: int, j: int, acc: (HandRank, Seq<u8>)) -> (HandRank, Seq<u8>)
    decreases j - i,
{
    if j <= i + 1 {
        acc
    } else {
        let prev = best_in_row(cards, i, j - 1, acc);
        let cand = eval5(combo(cards, i, j - 1));
        if beats(cand, prev) {
            cand
        } else {
            prev
        }
    }
}

/// The best hand among those leaving out a card below `i` and a later card,
/// starting from high card with zero kickers.
pub open spec fn best_upto(cards: Seq<u8>, i: nat) -> (HandRank, Seq<u8>)
    decreases i,
{
    if i == 0 {
        (HandRank::HighCard, seq![0u8, 0u8, 0u8, 0u8, 0u8])
    } else {
        best_in_row(cards, i - 1, 7, best_upto(cards, (i - 1) as nat))
    }
}

/// The best five-card hand of seven cards.
pub open spec fn best7(cards: Seq<u8>) -> (HandRank, Seq<u8>) {
    best_upto(cards, 7)
}

/// Beating is transitive, and no hand beats itself.
proof fn lemma_beats_order(a: (HandRank, Seq<u8>), b: (HandRank, Seq<u8>), c: (HandRank, Seq<u8>))
    ensures
        beats(a, b) && beats(b, c) ==> beats(a, c),
        !beats(a, a),
{
}

/// A hand that beats neither `p` nor anything `p` lost to beats no hand that
/// is `p` or beats it.
proof fn lemma_unbeaten_up(x: (HandRank, Seq<u8>), p: (HandRank, Seq<u8>), r: (HandRank, Seq<u8>))
    requires
        !beats(x, p),
        r == p || beats(r, p),
    ensures
        !beats(x, r),
{
    lemma_beats_order(x, r, p);
}

/// Scanning a row keeps the best so far or a hand that beats it, and no
/// hand of the row beats what it ends with.
proof fn lemma_best_in_row(cards: Seq<u8>, i: int, j: int, acc: (HandRank, Seq<u8>))
    ensures
        best_in_row(cards, i, j, acc) == acc || beats(best_in_row(cards, i, j, acc), acc),
        forall|k: int| i < k < j ==> !beats(#[trigger] eval5(combo(cards, i, k)), best_in_row(cards, i, j, acc)),
    decreases j - i,
{
    if j > i + 1 {
        let prev = best_in_row(cards, i, j - 1, acc);
        let cand = eval5(combo(cards, i, j - 1));
        let r = best_in_row(cards, i, j, acc);
        lemma_best_in_row(cards, i, j - 1, acc);
        lemma_beats_order(cand, cand, cand);
        lemma_beats_order(r, prev, acc);
        assert(r == prev || beats(r, prev));
        assert forall|k: int| i < k < j implies !beats(#[trigger] eval5(combo(cards, i, k)), r) by {
            if k < j - 1 {
                lemma_unbeaten_up(eval5(combo(cards, i, k)), prev, r);
            }
        }
    }
}

/// No way of setting aside two cards below `n` (with any later card) makes a
/// hand that beats the best found so far.
proof fn lemma_best_upto(cards: Seq<u8>, n: nat)
    ensures
        forall|i: int, k: int| 0 <= i < n && i < k < 7 ==> !beats(#[trigger] eval5(combo(cards, i, k)), best_upto(cards, n)),
    decreases n,
{
    if n > 0 {
        let prev = best_upto(cards, (n - 1) as nat);
        let r = best_upto(cards, n);
        lemma_best_upto(cards, (n - 1) as nat);
        lemma_best_in_row(cards, n - 1, 7, prev);
        assert forall|i: int, k: int| 0 <= i < n && i < k < 7 implies !beats(#[trigger] eval5(combo(cards, i, k)), r) by {
            if i < n - 1 {
                lemma_unbeaten_up(eval5(combo(cards, i, k)), prev, r);
            }
        }
    }
}

/// The best hand of seven cards: no five of the seven make a hand that
/// beats it.
pub proof fn lemma_best7_unbeaten(cards: Seq<u8>, i: int, j: int)
    requires
        0 <= i < j < 7,
    ensures
        !beats(eval5(combo(cards, i, j)), best7(cards)),
{
    lemma_best_upto(cards, 7);
}

/// Whether kickers `a` beat kickers `b`.
fn kickers_beat(a: &[u8; 5], b: &[u8; 5]) -> (r: bool)
    ensures
        r == kickers_greater(a@, b@),
{
    if a[0] != b[0] {
        a[0] > b[0]
    } else if a[1] != b[1] {
        a[1] > b[1]
    } else if a[2] != b[2] {
        a[2] > b[2]
    } else if a[3] != b[3] {
        a[3] > b[3]
    } else {
        a[4] > b[4]
    }
}

/// Index into seven cards of card `m` of the five left when `i < j` are set aside.
fn pick(m: usize, i: usize, j: usize) -> (k: usize)
    requires
        m < 5,
        i < j < 7,
    ensures
        k < 7,
        k == (if m < i {
            m as int
        } else if m + 1 < j {
            m + 1
        } else {
            m + 2
        }),
{
    if m < i {
        m
    } else if m + 1 < j {
        m + 1
    } else {
        m + 2
    }
}

/// The five cards left when cards `i` and `j` of seven are set aside.
fn without_two(cards: &[u8; 7], i: usize, j: usize) -> (h: [u8; 5])
    requires
        i < j < 7,
    ensures
        h@ == combo(cards@, i as int, j as int),
{
    let h: [u8; 5] = [
        cards[pick(0, i, j)],
        cards[pick(1, i, j)],
        cards[pick(2, i, j)],
        cards[pick(3, i, j)],
        cards[pick(4, i, j)],
    ];
    assert(h@ =~= combo(cards@, i as int, j as int));
    h
}

/// Evaluate the best five-card hand from seven cards: every way of leaving
/// out two cards is tried in order, and a hand replaces the best so far only
/// when it beats it.
pub fn evaluate_best_hand(cards: &[u8; 7]) -> (r: (HandRank, [u8; 5]))
    ensures
        (r.0, r.1@) == best7(cards@),
{
    let mut best_rank = HandRank::HighCard;
    let mut best_kickers: [u8; 5] = [0, 0, 0, 0, 0];
    assert(best_kickers@ =~= seq![0u8, 0u8, 0u8, 0u8, 0u8]);
    let mut i: usize = 0;
    while i < 7
        invariant
            i <= 7,
            (best_rank, best_kickers@) == best_upto(cards@, i as nat),
        decreases 7 - i,
    {
        let ghost start = (best_rank, best_kickers@);
        let mut j: usize = i + 1;
        while j < 7
            invariant
                i < 7,
                i + 1 <= j <= 7,
                start == best_upto(cards@, i as nat),
                (best_rank, best_kickers@) == best_in_row(cards@, i as int, j as int, start),
            decreases 7 - j,
        {
            let hand = without_two(cards, i, j);
            let (rank, kickers) = evaluate_5_card_fast(&hand);
            let rl = hand_rank_level(rank);
            let bl = hand_rank_level(best_rank);
            if rl > bl || (rank == best_rank && kickers_beat(&kickers, &best_kickers)) {
                best_rank = rank;
                best_kickers = kickers;
            }
            j += 1;
        }
        i += 1;
    }
    (best_rank, best_kickers)
}

/// The best rank among the five-card hands of six cards leaving out one of
/// the first `n` cards.
pub open spec fn best6_upto(cards: Seq<u8>, n: nat) -> HandRank
    decreases n,
{
    if n == 0 {
        HandRank::HighCard
    } else {
        let prev = best6_upto(cards, (n - 1) as nat);
        let cand = rank5(cards.remove(n - 1));
        if rank_level(cand) > rank_level(prev) {
            cand
        } else {
            prev
        }
    }
}

/// The five cards left when card `skip` of six is set aside.
fn without_one(cards: &[u8; 6], skip: usize) -> (h: [u8; 5])
    requires
        skip < 6,
    ensures
        h@ == cards@.remove(skip as int),
{
    let h: [u8; 5] = [
        cards[if skip > 0 {
            0
        } else {
            1
        }],
        cards[if skip > 1 {
            1
        } else {
            2
        }],
        cards[if skip > 2 {
            2
        } else {
            3
        }],
        cards[if skip > 3 {
            3
        } else {
            4
        }],
        cards[if skip > 4 {
            4
        } else {
            5
        }],
    ];
    assert(h@ =~= cards@.remove(skip as int));
    h
}

/// The best five-card rank of six cards, for the 6-card bonus.
pub fn evaluate_best_6_card_bonus(cards: &[u8; 6]) -> (r: HandRank)
    ensures
        r == best6_upto(cards@, 6),
{
    let mut best = HandRank::HighCard;
    let mut skip: usize = 0;
    while skip < 6
        invariant
            skip <= 6,
            best == best6_upto(cards@, skip as nat),
        decreases 6 - skip,
    {
        let hand = without_one(cards, skip);
        let (rank, _kickers) = evaluate_5_card_fast(&hand);
        if hand_rank_level(rank) > hand_rank_level(best) {
            best = rank;
        }
        skip += 1;
    }
    best
}

// ============================================================================
// Pay tables
// ============================================================================

/// Blind bonus winnings on a winning hand: royal 500x the ante, straight
/// flush 50x, quads 10x, full house 3x, flush 3:2, straight 1x.
pub open spec fn blind_bonus(ante: u64, r: HandRank) -> int {
    match r {
        HandRank::RoyalFlush => sat_mul(ante as int, 500),
        HandRank::StraightFlush => sat_mul(ante as int, 50),
        HandRank::FourOfAKind => sat_mul(ante as int, 10),
        HandRank::FullHouse => sat_mul(ante as int, 3),
        HandRank::Flush => sat_mul(ante as int, 3) / 2,
        HandRank::Straight => ante as int,
        _ => 0,
    }
}

/// The blind bonus winnings of a winning hand.
pub fn blind_bonus_winnings(ante: u64, player_rank: HandRank) -> (w: u64)
    ensures
        w == blind_bonus(ante, player_rank),
{
    match player_rank {
        HandRank::RoyalFlush => saturating_mul_u64(ante, 500),
        HandRank::StraightFlush => saturating_mul_u64(ante, 50),
        HandRank::FourOfAKind => saturating_mul_u64(ante, 10),
        HandRank::FullHouse => saturating_mul_u64(ante, 3),
        HandRank::Flush => saturating_mul_u64(ante, 3) / 2,
        HandRank::Straight => ante,
        _ => 0,
    }
}

/// Trips pay table ("to 1"): royal 50, straight flush 40, quads 30, full
/// house 9, flush 7, straight 4, trips 3.
pub open spec fn trips_mult(r: HandRank) -> u64 {
    match r {
        HandRank::RoyalFlush => 50,
        HandRank::StraightFlush => 40,
        HandRank::FourOfAKind => 30,
        HandRank::FullHouse => 9,
        HandRank::Flush => 7,
        HandRank::Straight => 4,
        HandRank::ThreeOfAKind => 3,
        _ => 0,
    }
}

/// The Trips multiplier of a player hand.
pub fn trips_multiplier(player_rank: HandRank) -> (m: u64)
    ensures
        m == trips_mult(player_rank),
{
    match player_rank {
        HandRank::RoyalFlush => 50,
        HandRank::StraightFlush => 40,
        HandRank::FourOfAKind => 30,
        HandRank::FullHouse => 9,
        HandRank::Flush => 7,
        HandRank::Straight => 4,
        HandRank::ThreeOfAKind => 3,
        _ => 0,
    }
}

/// 6-card bonus pay table ("to 1"): royal 1000, straight flush 200, quads 100,
/// full house 20, flush 15, straight 10, trips 7.
pub open spec fn six_card_mult(r: HandRank) -> u64 {
    match r {
        HandRank::RoyalFlush => 1000,
        HandRank::StraightFlush => 200,
        HandRank::FourOfAKind => 100,
        HandRank::FullHouse => 20,
        HandRank::Flush => 15,
        HandRank::Straight => 10,
        HandRank::ThreeOfAKind => 7,
        _ => 0,
    }
}

/// The 6-card bonus multiplier of a rank.
pub fn six_card_bonus_multiplier(rank: HandRank) -> (m: u64)
    ensures
        m == six_card_mult(rank),
{
    match rank {
        HandRank::RoyalFlush => 1000,
        HandRank::StraightFlush => 200,
        HandRank::FourOfAKind => 100,
        HandRank::FullHouse => 20,
        HandRank::Flush => 15,
        HandRank::Straight => 10,
        HandRank::ThreeOfAKind => 7,
        _ => 0,
    }
}

/// The paytables rise with the hand. The blind pays, on a winning hand, the
/// ante on a straight, 3 to 2 on a flush, 3 to 1 on a full house, 10 on four
/// of a kind, 50 on a straight flush and 500 on a royal flush, and nothing
/// below a straight. Trips pays 3, 4, 7, 9, 30, 40 and 50 to 1 from three of
/// a kind up, the six-card bonus 7, 10, 15, 20, 100, 200 and 1000; both pay
/// more for every stronger hand from three of a kind up and nothing below.
pub proof fn lemma_uth_paytables(r1: HandRank, r2: HandRank, ante: u64)
    requires
        ante * 500 <= u64::MAX,
    ensures
        rank_level(r1) <= rank_level(r2) ==> blind_bonus(ante, r1) <= blind_bonus(ante, r2),
        3 <= rank_level(r1) < rank_level(r2) ==> trips_mult(r1) < trips_mult(r2) && six_card_mult(
            r1,
        ) < six_card_mult(r2),
        rank_level(r1) < 3 ==> trips_mult(r1) == 0 && six_card_mult(r1) == 0,
        rank_level(r1) < 4 ==> blind_bonus(ante, r1) == 0,
        blind_bonus(ante, HandRank::Straight) == ante && blind_bonus(ante, HandRank::Flush) == (3
            * ante) / 2 && blind_bonus(ante, HandRank::FullHouse) == 3 * ante && blind_bonus(
            ante,
            HandRank::FourOfAKind,
        ) == 10 * ante && blind_bonus(ante, HandRank::StraightFlush) == 50 * ante && blind_bonus(
            ante,
            HandRank::RoyalFlush,
        ) == 500 * ante,
        trips_mult(HandRank::ThreeOfAKind) == 3 && trips_mult(HandRank::Straight) == 4 && trips_mult(
            HandRank::Flush,
        ) == 7 && trips_mult(HandRank::FullHouse) == 9 && trips_mult(HandRank::FourOfAKind) == 30
            && trips_mult(HandRank::StraightFlush) == 40 && trips_mult(HandRank::RoyalFlush) == 50,
        six_card_mult(HandRank::ThreeOfAKind) == 7 && six_card_mult(HandRank::Straight) == 10
            && six_card_mult(HandRank::Flush) == 15 && six_card_mult(HandRank::FullHouse) == 20
            && six_card_mult(HandRank::FourOfAKind) == 100 && six_card_mult(HandRank::StraightFlush)
            == 200 && six_card_mult(HandRank::RoyalFlush) == 1000,
{
    let a = ante as int;
    assert(0 <= a && a <= (3 * a) / 2 && (3 * a) / 2 <= 3 * a) by (nonlinear_arith)
        requires
            a >= 0,
    ;
}

/// Hands are compared by rank, then by kickers from the highest down; that
/// comparison is a strict order: no hand beats itself, of two hands at most
/// one beats the other, and a hand beating one that beats a third beats it.
pub proof fn lemma_beats_strict_order(
    a: (HandRank, Seq<u8>),
    b: (HandRank, Seq<u8>),
    c: (HandRank, Seq<u8>),
)
    ensures
        !beats(a, a),
        beats(a, b) ==> !beats(b, a),
        beats(a, b) && beats(b, c) ==> beats(a, c),
{
}

/// Base jackpot of the progressive, paid per unit on a royal flush.
pub const UTH_PROGRESSIVE_BASE_JACKPOT: u64 = 10_000;

/// Progressive return on the hole cards and the flop, per the for-one pay
/// table: royal the base jackpot, straight flush a tenth of it, quads 300,
/// full house 50, flush 40, straight 30, trips 9, times the stake, saturating.
pub open spec fn progressive_return(hole: Seq<u8>, flop: Seq<u8>, bet: u64) -> int {
    if bet == 0 {
        0
    } else {
        match rank5(hole + flop) {
            HandRank::RoyalFlush => sat_mul(bet as int, UTH_PROGRESSIVE_BASE_JACKPOT as int),
            HandRank::StraightFlush => sat_mul(bet as int, (UTH_PROGRESSIVE_BASE_JACKPOT / 10) as int),
            HandRank::FourOfAKind => sat_mul(bet as int, 300),
            HandRank::FullHouse => sat_mul(bet as int, 50),
            HandRank::Flush => sat_mul(bet as int, 40),
            HandRank::Straight => sat_mul(bet as int, 30),
            HandRank::ThreeOfAKind => sat_mul(bet as int, 9),
            _ => 0,
        }
    }
}

/// Resolve the progressive bet on the hole cards and the flop.
pub fn uth_progressive_return(hole: &[u8; 2], flop: &[u8; 3], progressive_bet: u64) -> (r: u64)
    ensures
        r == progressive_return(hole@, flop@, progressive_bet),
{
    if progressive_bet == 0 {
        return 0;
    }
    let cards: [u8; 5] = [hole[0], hole[1], flop[0], flop[1], flop[2]];
    assert(cards@ =~= hole@ + flop@);
    let (rank, _kickers) = evaluate_5_card_fast(&cards);
    match rank {
        HandRank::RoyalFlush => saturating_mul_u64(progressive_bet, UTH_PROGRESSIVE_BASE_JACKPOT),
        HandRank::StraightFlush => saturating_mul_u64(
            progressive_bet,
            UTH_PROGRESSIVE_BASE_JACKPOT / 10,
        ),
        HandRank::FourOfAKind => saturating_mul_u64(progressive_bet, 300),
        HandRank::FullHouse => saturating_mul_u64(progressive_bet, 50),
        HandRank::Flush => saturating_mul_u64(progressive_bet, 40),
        HandRank::Straight => saturating_mul_u64(progressive_bet, 30),
        HandRank::ThreeOfAKind => saturating_mul_u64(progressive_bet, 9),
        _ => 0,
    }
}

// ============================================================================
// State
// ============================================================================

/// Version byte of the oldest state blob.
pub const STATE_VERSION_V1: u8 = 1;

/// Version byte of the blob with the 6-card bonus.
pub const STATE_VERSION_V2: u8 = 2;

/// Version byte of the current blob.
pub const STATE_VERSION_V3: u8 = 3;

/// Marker of a card not revealed yet.
pub const CARD_UNKNOWN: u8 = 0xFF;

/// Length of a version 1 blob.
pub const STATE_LEN_V1: usize = 20;

/// Length of a version 2 blob.
pub const STATE_LEN_V2: usize = 32;

/// Length of a version 3 blob.
pub const STATE_LEN_V3: usize = 40;

/// The only progressive wager besides none.
pub const PROGRESSIVE_BET_UNIT: u64 = 1;

/// Game stages.
#[derive(Clone, Copy, Debug, PartialEq, Eq, Structural)]
pub enum Stage {
    Betting,
    Preflop,
    Flop,
    River,
    AwaitingReveal,
    Showdown,
}

/// Player actions.
#[derive(Clone, Copy, Debug, PartialEq, Eq, Structural)]
pub enum Action {
    Check,
    Bet4x,
    Bet2x,
    Bet1x,
    Fold,
    Deal,
    SetTrips,
    Reveal,
    Bet3x,
    SetSixCardBonus,
    SetProgressive,
}

/// Stage of a wire code.
pub open spec fn stage_of(v: u8) -> Option<Stage> {
    if v == 0 {
        Some(Stage::Betting)
    } else if v == 1 {
        Some(Stage::Preflop)
    } else if v == 2 {
        Some(Stage::Flop)
    } else if v == 3 {
        Some(Stage::River)
    } else if v == 4 {
        Some(Stage::AwaitingReveal)
    } else if v == 5 {
        Some(Stage::Showdown)
    } else {
        None
    }
}

/// Wire code of a stage.
pub open spec fn stage_code(s: Stage) -> u8 {
    match s {
        Stage::Betting => 0,
        Stage::Preflop => 1,
        Stage::Flop => 2,
        Stage::River => 3,
        Stage::AwaitingReveal => 4,
        Stage::Showdown => 5,
    }
}

/// Action of a wire code.
pub open spec fn action_of(v: u8) -> Option<Action> {
    if v == 0 {
        Some(Action::Check)
    } else if v == 1 {
        Some(Action::Bet4x)
    } else if v == 2 {
        Some(Action::Bet2x)
    } else if v == 3 {
        Some(Action::Bet1x)
    } else if v == 4 {
        Some(Action::Fold)
    } else if v == 5 {
        Some(Action::Deal)
    } else if v == 6 {
        Some(Action::SetTrips)
    } else if v == 7 {
        Some(Action::Reveal)
    } else if v == 8 {
        Some(Action::Bet3x)
    } else if v == 9 {
        Some(Action::SetSixCardBonus)
    } else if v == 10 {
        Some(Action::SetProgressive)
    } else {
        None
    }
}

impl Stage {
    /// The stage with wire code `value`, or `InvalidPayload`.
    pub fn try_from(value: u8) -> (r: Result<Stage, GameError>)
        ensures
            r == match stage_of(value) {
                Some(s) => Ok(s),
                None => Err(GameError::InvalidPayload),
            },
    {
        match value {
            0 => Ok(Stage::Betting),
            1 => Ok(Stage::Preflop),
            2 => Ok(Stage::Flop),
            3 => Ok(Stage::River),
            4 => Ok(Stage::AwaitingReveal),
            5 => Ok(Stage::Showdown),
            _ => Err(GameError::InvalidPayload),
        }
    }

    /// Wire code of the stage.
    pub fn code(self) -> (c: u8)
        ensures
            c == stage_code(self),
    {
        match self {
            Stage::Betting => 0,
            Stage::Preflop => 1,
            Stage::Flop => 2,
            Stage::River => 3,
            Stage::AwaitingReveal => 4,
            Stage::Showdown => 5,
        }
    }
}

impl Action {
    /// The action with wire code `value`, or `InvalidPayload`.
    pub fn try_from(value: u8) -> (r: Result<Action, GameError>)
        ensures
            r == match action_of(value) {
                Some(a) => Ok(a),
                None => Err(GameError::InvalidPayload),
            },
    {
        match value {
            0 => Ok(Action::Check),
            1 => Ok(Action::Bet4x),
            2 => Ok(Action::Bet2x),
            3 => Ok(Action::Bet1x),
            4 => Ok(Action::Fold),
            5 => Ok(Action::Deal),
            6 => Ok(Action::SetTrips),
            7 => Ok(Action::Reveal),
            8 => Ok(Action::Bet3x),
            9 => Ok(Action::SetSixCardBonus),
            10 => Ok(Action::SetProgressive),
            _ => Err(GameError::InvalidPayload),
        }
    }
}

/// Game state.
#[derive(Clone, Copy, Debug)]
pub struct UthState {
    pub stage: Stage,
    pub player: [u8; 2],
    pub community: [u8; 5],
    pub dealer: [u8; 2],
    pub play_mult: u8,
    pub trips_bet: u64,
    pub bonus: [u8; 4],
    pub six_card_bonus_bet: u64,
    pub progressive_bet: u64,
}

/// Abstract game state.
pub struct UthView {
    pub stage: Stage,
    pub player: Seq<u8>,
    pub community: Seq<u8>,
    pub dealer: Seq<u8>,
    pub play_mult: u8,
    pub trips_bet: u64,
    pub bonus: Seq<u8>,
    pub six_card_bonus_bet: u64,
    pub progressive_bet: u64,
}

impl View for UthState {
    type V = UthView;

    open spec fn view(&self) -> UthView {
        UthView {
            stage: self.stage,
            player: self.player@,
            community: self.community@,
            dealer: self.dealer@,
            play_mult: self.play_mult,
            trips_bet: self.trips_bet,
            bonus: self.bonus@,
            six_card_bonus_bet: self.six_card_bonus_bet,
            progressive_bet: self.progressive_bet,
        }
    }
}

/// Whether a view has the card counts of a state: 2 player, 5 community,
/// 2 dealer and 4 bonus cards.
pub open spec fn well_formed(v: UthView) -> bool {
    v.player.len() == 2 && v.community.len() == 5 && v.dealer.len() == 2 && v.bonus.len() == 4
}

/// The state a blob encodes: a version 1, 2 or 3 blob of exactly its length.
/// Version 1 has no bonus cards (all unrevealed) and no 6-card or progressive
/// bet; version 2 no progressive bet.
pub open spec fn parse_blob(b: Seq<u8>) -> Option<UthView> {
    let v1 = b.len() == STATE_LEN_V1 && b[0] == STATE_VERSION_V1;
    let v2 = b.len() == STATE_LEN_V2 && b[0] == STATE_VERSION_V2;
    let v3 = b.len() == STATE_LEN_V3 && b[0] == STATE_VERSION_V3;
    if !(v1 || v2 || v3) {
        None
    } else {
        match stage_of(b[1]) {
            None => None,
            Some(stage) => Some(
                UthView {
                    stage,
                    player: b.subrange(2, 4),
                    community: b.subrange(4, 9),
                    dealer: b.subrange(9, 11),
                    play_mult: b[11],
                    trips_bet: if v1 {
                        be_u64(b.subrange(12, 20))
                    } else {
                        be_u64(b.subrange(16, 24))
                    },
                    bonus: if v1 {
                        seq![CARD_UNKNOWN, CARD_UNKNOWN, CARD_UNKNOWN, CARD_UNKNOWN]
                    } else {
                        b.subrange(12, 16)
                    },
                    six_card_bonus_bet: if v1 {
                        0
                    } else {
                        be_u64(b.subrange(24, 32))
                    },
                    progressive_bet: if v3 {
                        be_u64(b.subrange(32, 40))
                    } else {
                        0
                    },
                },
            ),
        }
    }
}

/// The version 3 blob of a state.
pub open spec fn state_bytes(v: UthView) -> Seq<u8> {
    seq![STATE_VERSION_V3, stage_code(v.stage)] + v.player + v.community + v.dealer + seq![
        v.play_mult,
    ] + v.bonus + u64_be_bytes(v.trips_bet) + u64_be_bytes(v.six_card_bonus_bet) + u64_be_bytes(
        v.progressive_bet,
    )
}

/// Parsing a serialized state gives it back.
#[verifier::spinoff_prover]
pub proof fn lemma_state_roundtrip(v: UthView)
    requires
        well_formed(v),
    ensures
        parse_blob(state_bytes(v)) == Some(v),
{
    let b = state_bytes(v);
    lemma_u64_be_roundtrip(v.trips_bet);
    lemma_u64_be_roundtrip(v.six_card_bonus_bet);
    lemma_u64_be_roundtrip(v.progressive_bet);
    assert(b.subrange(2, 4) =~= v.player);
    assert(b.subrange(4, 9) =~= v.community);
    assert(b.subrange(9, 11) =~= v.dealer);
    assert(b.subrange(12, 16) =~= v.bonus);
    assert(b.subrange(16, 24) =~= u64_be_bytes(v.trips_bet));
    assert(b.subrange(24, 32) =~= u64_be_bytes(v.six_card_bonus_bet));
    assert(b.subrange(32, 40) =~= u64_be_bytes(v.progressive_bet));
}

/// Parses a state blob.
pub fn parse_state(state: &[u8]) -> (r: Option<UthState>)
    ensures
        match r {
            Some(s) => parse_blob(state@) == Some(s@),
            None => parse_blob(state@) is None,
        },
{
    let len = state.len();
    let version: u8 = if len == STATE_LEN_V1 && state[0] == STATE_VERSION_V1 {
        1
    } else if len == STATE_LEN_V2 && state[0] == STATE_VERSION_V2 {
        2
    } else if len == STATE_LEN_V3 && state[0] == STATE_VERSION_V3 {
        3
    } else {
        return None;
    };
    let stage = match Stage::try_from(state[1]) {
        Ok(s) => s,
        Err(_) => return None,
    };
    let player: [u8; 2] = [state[2], state[3]];
    let community: [u8; 5] = [state[4], state[5], state[6], state[7], state[8]];
    let dealer: [u8; 2] = [state[9], state[10]];
    assert(player@ =~= state@.subrange(2, 4));
    assert(community@ =~= state@.subrange(4, 9));
    assert(dealer@ =~= state@.subrange(9, 11));
    let play_mult = state[11];
    let (bonus, trips_bet, six_card_bonus_bet): ([u8; 4], u64, u64) = if version == 1 {
        let b: [u8; 4] = [CARD_UNKNOWN, CARD_UNKNOWN, CARD_UNKNOWN, CARD_UNKNOWN];
        assert(b@ =~= seq![CARD_UNKNOWN, CARD_UNKNOWN, CARD_UNKNOWN, CARD_UNKNOWN]);
        (b, read_u64_be(state, 12), 0)
    } else {
        let b: [u8; 4] = [state[12], state[13], state[14], state[15]];
        assert(b@ =~= state@.subrange(12, 16));
        (b, read_u64_be(state, 16), read_u64_be(state, 24))
    };
    let progressive_bet = if version == 3 {
        read_u64_be(state, 32)
    } else {
        0
    };
    Some(
        UthState {
            stage,
            player,
            community,
            dealer,
            play_mult,
            trips_bet,
            bonus,
            six_card_bonus_bet,
            progressive_bet,
        },
    )
}

/// Serializes a state (always version 3).
pub fn serialize_state(state: &UthState) -> (out: Vec<u8>)
    ensures
        out@ == state_bytes(state@),
{
    let mut out: Vec<u8> = Vec::new();
    out.push(STATE_VERSION_V3);
    out.push(state.stage.code());
    out.push(state.player[0]);
    out.push(state.player[1]);
    out.push(state.community[0]);
    out.push(state.community[1]);
    out.push(state.community[2]);
    out.push(state.community[3]);
    out.push(state.community[4]);
    out.push(state.dealer[0]);
    out.push(state.dealer[1]);
    out.push(state.play_mult);
    out.push(state.bonus[0]);
    out.push(state.bonus[1]);
    out.push(state.bonus[2]);
    out.push(state.bonus[3]);
    push_u64_be(&mut out, state.trips_bet);
    push_u64_be(&mut out, state.six_card_bonus_bet);
    push_u64_be(&mut out, state.progressive_bet);
    assert(out@ =~= state_bytes(state@));
    out
}

/// Whether a card byte is a dealt card.
pub fn is_known_card(card: u8) -> (b: bool)
    ensures
        b == (card < 52),
{
    card < 52
}

/// The dealt cards of a sequence, in order.
pub open spec fn known_only(s: Seq<u8>) -> Seq<u8>
    decreases s.len(),
{
    if s.len() == 0 {
        Seq::empty()
    } else if s.last() < 52 {
        known_only(s.drop_last()).push(s.last())
    } else {
        known_only(s.drop_last())
    }
}

/// Keeping the dealt cards keeps at most all of them.
pub proof fn lemma_known_only_len(s: Seq<u8>)
    ensures
        known_only(s).len() <= s.len(),
    decreases s.len(),
{
    if s.len() > 0 {
        lemma_known_only_len(s.drop_last());
    }
}

/// The dealt cards of a state: player, community, dealer, then bonus cards.
pub open spec fn known_cards(v: UthView) -> Seq<u8> {
    known_only(v.player + v.community + v.dealer + v.bonus)
}

/// The dealt cards of a state.
pub fn known_cards_in_state(state: &UthState) -> (used: Vec<u8>)
    ensures
        used@ == known_cards(state@),
        used@.len() <= 13,
{
    let mut all: Vec<u8> = Vec::new();
    all.push(state.player[0]);
    all.push(state.player[1]);
    all.push(state.community[0]);
    all.push(state.community[1]);
    all.push(state.community[2]);
    all.push(state.community[3]);
    all.push(state.community[4]);
    all.push(state.dealer[0]);
    all.push(state.dealer[1]);
    all.push(state.bonus[0]);
    all.push(state.bonus[1]);
    all.push(state.bonus[2]);
    all.push(state.bonus[3]);
    let ghost whole = state@.player + state@.community + state@.dealer + state@.bonus;
    assert(all@ =~= whole);
    let mut used: Vec<u8> = Vec::new();
    let mut i: usize = 0;
    while i < all.len()
        invariant
            i <= all@.len(),
            used@ == known_only(all@.subrange(0, i as int)),
        decreases all@.len() - i,
    {
        proof {
            assert(all@.subrange(0, i as int + 1).drop_last() =~= all@.subrange(0, i as int));
        }
        if is_known_card(all[i]) {
            used.push(all[i]);
        }
        i += 1;
    }
    assert(all@.subrange(0, all@.len() as int) =~= all@);
    proof {
        lemma_known_only_len(all@);
    }
    used
}

/// Fills the unrevealed slots of a sequence, in order, with cards drawn from
/// a deck: the filled slots, the deck left and the stream point after.
pub open spec fn fill(slots: Seq<u8>, deck: Seq<u8>, p: RngPoint) -> (Seq<u8>, Seq<u8>, RngPoint)
    decreases slots.len(),
{
    if slots.len() == 0 {
        (Seq::empty(), deck, p)
    } else {
        let prev = fill(slots.drop_last(), deck, p);
        if slots.last() < 52 {
            (prev.0.push(slots.last()), prev.1, prev.2)
        } else {
            let d = card_draw(prev.1, prev.2);
            (prev.0.push(d.0), d.1, d.2)
        }
    }
}

/// Filling keeps the number of slots and draws at most one card per slot.
pub proof fn lemma_fill_len(slots: Seq<u8>, deck: Seq<u8>, p: RngPoint)
    requires
        deck.len() >= slots.len(),
    ensures
        fill(slots, deck, p).0.len() == slots.len(),
        fill(slots, deck, p).1.len() >= deck.len() - slots.len(),
    decreases slots.len(),
{
    if slots.len() > 0 {
        lemma_fill_len(slots.drop_last(), deck, p);
    }
}

/// Fills the unrevealed slots with cards drawn from the deck.
fn fill_unknowns(rng: &mut GameRng, deck: &mut Vec<u8>, slots: &[u8]) -> (out: Vec<u8>)
    requires
        old(deck)@.len() >= slots@.len(),
    ensures
        (out@, final(deck)@, final(rng)@) == fill(slots@, old(deck)@, old(rng)@),
{
    let mut out: Vec<u8> = Vec::new();
    let mut i: usize = 0;
    while i < slots.len()
        invariant
            i <= slots@.len(),
            old(deck)@.len() >= slots@.len(),
            (out@, deck@, rng@) == fill(slots@.subrange(0, i as int), old(deck)@, old(rng)@),
            deck@.len() >= old(deck)@.len() - i,
        decreases slots@.len() - i,
    {
        proof {
            assert(slots@.subrange(0, i as int + 1).drop_last() =~= slots@.subrange(0, i as int));
        }
        if is_known_card(slots[i]) {
            out.push(slots[i]);
        } else {
            let c = draw_from(rng, deck);
            out.push(c);
        }
        i += 1;
    }
    assert(slots@.subrange(0, slots@.len() as int) =~= slots@);
    out
}

/// The shuffled deck without the dealt cards of a state, and the point after.
pub open spec fn fresh_deck(v: UthView, p: RngPoint) -> (Seq<u8>, RngPoint) {
    shuffled(remove_each(ordered_shoe(1), known_cards(v)), p)
}

/// A shuffled deck without the dealt cards of a state.
fn deck_without_known(state: &UthState, rng: &mut GameRng) -> (deck: Vec<u8>)
    ensures
        (deck@, final(rng)@) == fresh_deck(state@, old(rng)@),
        deck@.len() >= 39,
{
    let used = known_cards_in_state(state);
    let deck = rng.create_deck_excluding(&used);
    proof {
        lemma_remove_each_len(ordered_shoe(1), used@);
    }
    deck
}

/// The slots filled when the remaining cards are revealed: community, dealer
/// (when asked) and, with a 6-card bonus bet, the bonus cards.
pub open spec fn reveal_slots(v: UthView, need_dealer: bool) -> Seq<u8> {
    v.community + (if need_dealer {
        v.dealer
    } else {
        Seq::empty()
    }) + (if v.six_card_bonus_bet > 0 {
        v.bonus
    } else {
        Seq::empty()
    })
}

/// A state with the remaining cards revealed from a fresh deck, and the
/// stream point after.
pub open spec fn revealed(v: UthView, need_dealer: bool, p: RngPoint) -> (UthView, RngPoint) {
    let d = fresh_deck(v, p);
    let f = fill(reveal_slots(v, need_dealer), d.0, d.1);
    let off: int = if need_dealer {
        7
    } else {
        5
    };
    (
        UthView {
            community: f.0.subrange(0, 5),
            dealer: if need_dealer {
                f.0.subrange(5, 7)
            } else {
                v.dealer
            },
            bonus: if v.six_card_bonus_bet > 0 {
                f.0.subrange(off, off + 4)
            } else {
                v.bonus
            },
            ..v
        },
        f.2,
    )
}

/// Reveals the remaining community cards, the dealer's cards when asked, and
/// the bonus cards when there is a 6-card bonus bet; never runs out of cards.
pub fn draw_into_unknowns(state: &mut UthState, rng: &mut GameRng, need_dealer: bool) -> (r: Result<(), GameError>)
    ensures
        r is Ok,
        (final(state)@, final(rng)@) == revealed(old(state)@, need_dealer, old(rng)@),
{
    let mut deck = deck_without_known(state, rng);
    let mut slots: Vec<u8> = Vec::new();
    slots.push(state.community[0]);
    slots.push(state.community[1]);
    slots.push(state.community[2]);
    slots.push(state.community[3]);
    slots.push(state.community[4]);
    if need_dealer {
        slots.push(state.dealer[0]);
        slots.push(state.dealer[1]);
    }
    if state.six_card_bonus_bet > 0 {
        slots.push(state.bonus[0]);
        slots.push(state.bonus[1]);
        slots.push(state.bonus[2]);
        slots.push(state.bonus[3]);
    }
    assert(slots@ =~= reveal_slots(state@, need_dealer));
    let ghost d0 = deck@;
    let ghost p0 = rng@;
    let out = fill_unknowns(rng, &mut deck, slots.as_slice());
    proof {
        lemma_fill_len(slots@, d0, p0);
    }
    let community: [u8; 5] = [out[0], out[1], out[2], out[3], out[4]];
    assert(community@ =~= out@.subrange(0, 5));
    state.community = community;
    let off: usize = if need_dealer {
        let dealer: [u8; 2] = [out[5], out[6]];
        assert(dealer@ =~= out@.subrange(5, 7));
        state.dealer = dealer;
        7
    } else {
        5
    };
    if state.six_card_bonus_bet > 0 {
        let bonus: [u8; 4] = [out[off], out[off + 1], out[off + 2], out[off + 3]];
        assert(bonus@ =~= out@.subrange(off as int, off + 4));
        state.bonus = bonus;
    }
    Ok(())
}

/// A state with the community cards in `lo..hi` revealed from a fresh deck,
/// and the point after.
pub open spec fn street_revealed(v: UthView, lo: int, hi: int, p: RngPoint) -> (UthView, RngPoint) {
    let d = fresh_deck(v, p);
    let f = fill(v.community.subrange(lo, hi), d.0, d.1);
    (
        UthView {
            community: v.community.subrange(0, lo) + f.0 + v.community.subrange(hi, 5),
            ..v
        },
        f.2,
    )
}

/// Reveals the community cards in `lo..hi` that are still hidden.
fn reveal_street(state: &mut UthState, rng: &mut GameRng, lo: usize, hi: usize)
    requires
        lo <= hi <= 5,
    ensures
        (final(state)@, final(rng)@) == street_revealed(old(state)@, lo as int, hi as int, old(rng)@),
{
    let mut deck = deck_without_known(state, rng);
    let mut slots: Vec<u8> = Vec::new();
    let mut k: usize = lo;
    while k < hi
        invariant
            lo <= k <= hi <= 5,
            slots@ == state@.community.subrange(lo as int, k as int),
        decreases hi - k,
    {
        slots.push(state.community[k]);
        k += 1;
        proof {
            assert(slots@ =~= state@.community.subrange(lo as int, k as int));
        }
    }
    let ghost d0 = deck@;
    let ghost p0 = rng@;
    let out = fill_unknowns(rng, &mut deck, slots.as_slice());
    proof {
        lemma_fill_len(slots@, d0, p0);
    }
    let ghost before = state@.community;
    let mut m: usize = 0;
    let mut next: Vec<u8> = Vec::new();
    while m < 5
        invariant
            m <= 5,
            lo <= hi <= 5,
            out@.len() == hi - lo,
            before == state@.community,
            next@ == (before.subrange(0, lo as int) + out@ + before.subrange(hi as int, 5)).subrange(
                0,
                m as int,
            ),
        decreases 5 - m,
    {
        if m < lo || m >= hi {
            next.push(state.community[m]);
        } else {
            next.push(out[m - lo]);
        }
        m += 1;
        proof {
            assert(next@ =~= (before.subrange(0, lo as int) + out@ + before.subrange(hi as int, 5)).subrange(0, m as int));
        }
    }
    let community: [u8; 5] = [next[0], next[1], next[2], next[3], next[4]];
    assert(community@ =~= before.subrange(0, lo as int) + out@ + before.subrange(hi as int, 5));
    state.community = community;
}

// ============================================================================
// Showdown
// ============================================================================

/// Whether every card of a sequence is dealt.
pub open spec fn all_known(s: Seq<u8>) -> bool {
    forall|i: int| 0 <= i < s.len() ==> s[i] < 52
}

/// Whether every card is dealt.
fn all_cards_known(cards: &[u8]) -> (b: bool)
    ensures
        b == all_known(cards@),
{
    let mut i: usize = 0;
    while i < cards.len()
        invariant
            i <= cards@.len(),
            forall|k: int| 0 <= k < i ==> cards@[k] < 52,
        decreases cards@.len() - i,
    {
        if !is_known_card(cards[i]) {
            return false;
        }
        i += 1;
    }
    true
}

/// A total return, times the super multipliers of the player's seven cards
/// when super mode is active and something is returned.
pub open spec fn super_boost(total: int, cards: Seq<u8>, super_active: bool, mults: Seq<SuperMultiplier>) -> int {
    if super_active && total > 0 {
        sat_mul(total, cards_product(cards, mults))
    } else {
        total
    }
}

/// Return of the main bets (ante, blind, play) given the side-bet returns so
/// far: nothing more after a fold; all pushed on a tie; on a win the play pays
/// even money, the ante even money (pushed if the dealer does not qualify)
/// and the blind pushes plus its bonus; on a loss only the ante pushes, when
/// the dealer does not qualify.
pub open spec fn with_main_bets(
    acc: int,
    play_mult: u8,
    bet: u64,
    ph: (HandRank, Seq<u8>),
    dh: (HandRank, Seq<u8>),
) -> int {
    let ante = bet as int;
    let play_bet = sat_mul(bet as int, play_mult as int);
    let qualifies = rank_level(dh.0) >= 1;
    if play_mult == 0 {
        acc
    } else if ph.0 == dh.0 && ph.1 == dh.1 {
        sat_add(sat_add(sat_add(acc, ante), ante), play_bet)
    } else if beats(ph, dh) {
        let a = sat_add(acc, sat_mul(play_bet, 2));
        let b = if qualifies {
            sat_add(a, sat_mul(ante, 2))
        } else {
            sat_add(a, ante)
        };
        sat_add(b, sat_add(ante, blind_bonus(bet, ph.0)))
    } else if !qualifies {
        sat_add(acc, ante)
    } else {
        acc
    }
}

/// Result of the showdown of a state with every card revealed: progressive,
/// Trips and 6-card bonus first, then the main bets; a win of the total
/// (boosted in super mode) or a loss of every wager. Refused with
/// `InvalidState` when a needed card is not dealt.
pub open spec fn showdown_result(v: UthView, bet: u64, super_active: bool, mults: Seq<SuperMultiplier>) -> Result<
    GameResult,
    GameError,
> {
    if !all_known(v.player) || !all_known(v.community) || !all_known(v.dealer) || (
    v.six_card_bonus_bet > 0 && !all_known(v.bonus)) {
        Err(GameError::InvalidState)
    } else {
        let play_bet = sat_mul(bet as int, v.play_mult as int);
        let wagered = sat_add(
            sat_add(
                sat_add(sat_add(sat_add(bet as int, bet as int), play_bet), v.trips_bet as int),
                v.six_card_bonus_bet as int,
            ),
            v.progressive_bet as int,
        );
        let pcards = v.player + v.community;
        let ph = best7(pcards);
        let dh = best7(v.dealer + v.community);
        let r1 = if v.progressive_bet > 0 {
            progressive_return(v.player, v.community.subrange(0, 3), v.progressive_bet)
        } else {
            0
        };
        let tm = trips_mult(ph.0);
        let r2 = if v.trips_bet > 0 && tm > 0 {
            sat_add(r1, sat_mul(v.trips_bet as int, tm + 1))
        } else {
            r1
        };
        let sm = six_card_mult(best6_upto(v.player + v.bonus, 6));
        let r3 = if v.six_card_bonus_bet > 0 && sm > 0 {
            sat_add(r2, sat_mul(v.six_card_bonus_bet as int, sm + 1))
        } else {
            r2
        };
        let total = super_boost(with_main_bets(r3, v.play_mult, bet, ph, dh), pcards, super_active, mults);
        if total == 0 {
            Ok(GameResult::LossPreDeducted(wagered as u64))
        } else {
            Ok(GameResult::Win(total as u64))
        }
    }
}

/// The main bets' return added to `acc`.
fn main_bets(acc: u64, play_mult: u8, bet: u64, ph: &(HandRank, [u8; 5]), dh: &(HandRank, [u8; 5])) -> (r: u64)
    ensures
        r == with_main_bets(acc as int, play_mult, bet, (ph.0, ph.1@), (dh.0, dh.1@)),
{
    let ante = bet;
    let blind = bet;
    let play_bet = saturating_mul_u64(ante, play_mult as u64);
    let dealer_qualifies = hand_rank_level(dh.0) >= 1;
    let same_kickers = ph.1[0] == dh.1[0] && ph.1[1] == dh.1[1] && ph.1[2] == dh.1[2] && ph.1[3]
        == dh.1[3] && ph.1[4] == dh.1[4];
    assert(same_kickers <==> ph.1@ =~= dh.1@);
    let tie = ph.0 == dh.0 && same_kickers;
    let player_wins = hand_rank_level(ph.0) > hand_rank_level(dh.0) || (ph.0 == dh.0
        && kickers_beat(&ph.1, &dh.1));
    if play_mult == 0 {
        acc
    } else if tie {
        acc.saturating_add(ante).saturating_add(blind).saturating_add(play_bet)
    } else if player_wins {
        let mut total = acc.saturating_add(saturating_mul_u64(play_bet, 2));
        if dealer_qualifies {
            total = total.saturating_add(saturating_mul_u64(ante, 2));
        } else {
            total = total.saturating_add(ante);
        }
        let bonus = blind_bonus_winnings(ante, ph.0);
        total.saturating_add(blind.saturating_add(bonus))
    } else if !dealer_qualifies {
        acc.saturating_add(ante)
    } else {
        acc
    }
}

/// Resolve the showdown of a state with every card revealed: the session's
/// result, with the state moved to the showdown and the session completed;
/// on a card still unknown, an error that changes nothing.
pub fn resolve_showdown(session: &mut GameSession, state: &mut UthState) -> (r: Result<GameResult, GameError>)
    ensures
        r == showdown_result(
            old(state)@,
            old(session).bet,
            old(session).super_mode.is_active,
            old(session).super_mode.multipliers@,
        ),
        r is Ok ==> final(state)@ == (UthView { stage: Stage::Showdown, ..old(state)@ }) && *final(session) == (
        GameSession { is_complete: true, ..*old(session) }),
        r is Err ==> *final(state) == *old(state) && *final(session) == *old(session),
{
    let r = showdown_return(state, session.bet, session.super_mode.is_active, session.super_mode.multipliers.as_slice());
    if r.is_ok() {
        state.stage = Stage::Showdown;
        session.is_complete = true;
    }
    r
}

/// The result of the showdown of a state with every card revealed.
fn showdown_return(state: &UthState, bet: u64, super_active: bool, multipliers: &[SuperMultiplier]) -> (r: Result<
    GameResult,
    GameError,
>)
    ensures
        r == showdown_result(state@, bet, super_active, multipliers@),
{
    if !all_cards_known(&state.player) || !all_cards_known(&state.community) || !all_cards_known(
        &state.dealer,
    ) || (state.six_card_bonus_bet > 0 && !all_cards_known(&state.bonus)) {
        return Err(GameError::InvalidState);
    }
    let play_bet = saturating_mul_u64(bet, state.play_mult as u64);
    let total_wagered = bet.saturating_add(bet).saturating_add(play_bet).saturating_add(
        state.trips_bet,
    ).saturating_add(state.six_card_bonus_bet).saturating_add(state.progressive_bet);
    let player_cards: [u8; 7] = [
        state.player[0],
        state.player[1],
        state.community[0],
        state.community[1],
        state.community[2],
        state.community[3],
        state.community[4],
    ];
    let dealer_cards: [u8; 7] = [
        state.dealer[0],
        state.dealer[1],
        state.community[0],
        state.community[1],
        state.community[2],
        state.community[3],
        state.community[4],
    ];
    assert(player_cards@ =~= state@.player + state@.community);
    assert(dealer_cards@ =~= state@.dealer + state@.community);
    let player_hand = evaluate_best_hand(&player_cards);
    let dealer_hand = evaluate_best_hand(&dealer_cards);
    let mut total_return: u64 = 0;
    if state.progressive_bet > 0 {
        let flop: [u8; 3] = [state.community[0], state.community[1], state.community[2]];
        assert(flop@ =~= state@.community.subrange(0, 3));
        total_return = uth_progressive_return(&state.player, &flop, state.progressive_bet);
    }
    if state.trips_bet > 0 {
        let mult = trips_multiplier(player_hand.0);
        if mult > 0 {
            total_return = total_return.saturating_add(
                saturating_mul_u64(state.trips_bet, mult + 1),
            );
        }
    }
    if state.six_card_bonus_bet > 0 {
        let cards: [u8; 6] = [
            state.player[0],
            state.player[1],
            state.bonus[0],
            state.bonus[1],
            state.bonus[2],
            state.bonus[3],
        ];
        assert(cards@ =~= state@.player + state@.bonus);
        let rank = evaluate_best_6_card_bonus(&cards);
        let mult = six_card_bonus_multiplier(rank);
        if mult > 0 {
            total_return = total_return.saturating_add(
                saturating_mul_u64(state.six_card_bonus_bet, mult + 1),
            );
        }
    }
    total_return = main_bets(total_return, state.play_mult, bet, &player_hand, &dealer_hand);
    if super_active && total_return > 0 {
        total_return = apply_super_multiplier_cards(&player_cards, multipliers, total_return);
    }
    if total_return == 0 {
        Ok(GameResult::LossPreDeducted(total_wagered))
    } else {
        Ok(GameResult::Win(total_return))
    }
}

// ============================================================================
// Moves
// ============================================================================

/// Sets the Trips bet; returns the balance change.
pub fn apply_trips_update(state: &mut UthState, new_trips_bet: u64) -> (r: Result<i64, GameError>)
    requires
        old(state).trips_bet - new_trips_bet != 0x8000_0000_0000_0000,
    ensures
        match bet_change(old(state).trips_bet, new_trips_bet) {
            Some(c) => r == Ok::<i64, GameError>(c as i64) && final(state)@ == UthView {
                trips_bet: new_trips_bet,
                ..old(state)@
            },
            None => r == Err::<i64, GameError>(GameError::InvalidMove) && final(state)@ == old(state)@,
        },
{
    let change = bet_delta(state.trips_bet, new_trips_bet)?;
    state.trips_bet = new_trips_bet;
    Ok(change)
}

/// Sets the 6-card bonus bet; returns the balance change.
pub fn apply_six_card_bonus_update(state: &mut UthState, new_bet: u64) -> (r: Result<i64, GameError>)
    requires
        old(state).six_card_bonus_bet - new_bet != 0x8000_0000_0000_0000,
    ensures
        match bet_change(old(state).six_card_bonus_bet, new_bet) {
            Some(c) => r == Ok::<i64, GameError>(c as i64) && final(state)@ == UthView {
                six_card_bonus_bet: new_bet,
                ..old(state)@
            },
            None => r == Err::<i64, GameError>(GameError::InvalidMove) && final(state)@ == old(state)@,
        },
{
    let change = bet_delta(state.six_card_bonus_bet, new_bet)?;
    state.six_card_bonus_bet = new_bet;
    Ok(change)
}

/// Sets the progressive bet; returns the balance change.
pub fn apply_progressive_update(state: &mut UthState, new_bet: u64) -> (r: Result<i64, GameError>)
    requires
        old(state).progressive_bet - new_bet != 0x8000_0000_0000_0000,
    ensures
        match bet_change(old(state).progressive_bet, new_bet) {
            Some(c) => r == Ok::<i64, GameError>(c as i64) && final(state)@ == UthView {
                progressive_bet: new_bet,
                ..old(state)@
            },
            None => r == Err::<i64, GameError>(GameError::InvalidMove) && final(state)@ == old(state)@,
        },
{
    let change = bet_delta(state.progressive_bet, new_bet)?;
    state.progressive_bet = new_bet;
    Ok(change)
}

/// The player's hole cards: two from a freshly shuffled deck.
pub open spec fn hole_deal(p: RngPoint) -> (Seq<u8>, RngPoint) {
    let s = shuffled(ordered_deck(), p);
    let a = card_draw(s.0, s.1);
    let b = card_draw(a.1, a.2);
    (seq![a.0, b.0], b.2)
}

/// The play multiplier of a betting action.
pub open spec fn bet_action_mult(a: Action) -> u8 {
    match a {
        Action::Bet4x => 4,
        Action::Bet3x => 3,
        Action::Bet2x => 2,
        _ => 1,
    }
}

/// Placing the play bet: refused once one is placed; otherwise the balance
/// moves by minus the bet (the ante times the multiplier, as an `i64`).
pub open spec fn play_outcome(st: UthView, mult: u8, bet: u64) -> (Result<GameResult, GameError>, Option<UthView>) {
    if st.play_mult != 0 {
        (Err(GameError::InvalidMove), None)
    } else {
        (
            Ok(GameResult::ContinueWithUpdate { payout: (-wrap_i64(sat_mul(bet as int, mult as int) as u64)) as i64 }),
            Some(UthView { play_mult: mult, stage: Stage::AwaitingReveal, ..st }),
        )
    }
}

/// Revealing everything left and resolving the showdown; the game ends in
/// showdown on success.
pub open spec fn showdown_outcome(
    st: UthView,
    bet: u64,
    p: RngPoint,
    super_active: bool,
    mults: Seq<SuperMultiplier>,
) -> (Result<GameResult, GameError>, Option<UthView>, RngPoint) {
    let rv = revealed(st, true, p);
    match showdown_result(rv.0, bet, super_active, mults) {
        Ok(res) => (Ok(res), Some(UthView { stage: Stage::Showdown, ..rv.0 }), rv.1),
        Err(e) => (Err(e), None, rv.1),
    }
}

/// Outcome of an action on a parsed state: result, new state (on success)
/// and stream point.
pub open spec fn uth_outcome(
    st: UthView,
    act: Action,
    payload: Seq<u8>,
    bet: u64,
    p: RngPoint,
    super_active: bool,
    mults: Seq<SuperMultiplier>,
) -> (Result<GameResult, GameError>, Option<UthView>, RngPoint) {
    match st.stage {
        Stage::Betting => if act == Action::SetTrips || act == Action::SetSixCardBonus || act
            == Action::SetProgressive {
            if payload.len() < 9 {
                (Err(GameError::InvalidPayload), None, p)
            } else {
                let nb = payload_amount(payload);
                if act == Action::SetProgressive && nb != 0 && nb != PROGRESSIVE_BET_UNIT {
                    (Err(GameError::InvalidMove), None, p)
                } else {
                    let old = if act == Action::SetTrips {
                        st.trips_bet
                    } else if act == Action::SetSixCardBonus {
                        st.six_card_bonus_bet
                    } else {
                        st.progressive_bet
                    };
                    match bet_change(old, nb) {
                        None => (Err(GameError::InvalidMove), None, p),
                        Some(pay) => (
                            Ok(continue_with(pay)),
                            Some(
                                if act == Action::SetTrips {
                                    UthView { trips_bet: nb, ..st }
                                } else if act == Action::SetSixCardBonus {
                                    UthView { six_card_bonus_bet: nb, ..st }
                                } else {
                                    UthView { progressive_bet: nb, ..st }
                                },
                            ),
                            p,
                        ),
                    }
                }
            }
        } else if act == Action::Deal {
            if st.player[0] < 52 || st.player[1] < 52 {
                (Err(GameError::InvalidMove), None, p)
            } else if payload.len() != 9 && payload.len() != 1 {
                (Err(GameError::InvalidPayload), None, p)
            } else {
                let change = if payload.len() == 9 {
                    bet_change(st.trips_bet, payload_amount(payload))
                } else {
                    Some(0int)
                };
                let trips = if payload.len() == 9 {
                    payload_amount(payload)
                } else {
                    st.trips_bet
                };
                match change {
                    None => (Err(GameError::InvalidMove), None, p),
                    Some(pay) => {
                        let d = hole_deal(p);
                        (
                            Ok(continue_with(pay)),
                            Some(UthView { stage: Stage::Preflop, player: d.0, trips_bet: trips, ..st }),
                            d.1,
                        )
                    },
                }
            }
        } else {
            (Err(GameError::InvalidMove), None, p)
        },
        Stage::Preflop => if act == Action::Check {
            let r = street_revealed(st, 0, 3, p);
            (Ok(GameResult::Continue), Some(UthView { stage: Stage::Flop, ..r.0 }), r.1)
        } else if act == Action::Bet4x || act == Action::Bet3x {
            let o = play_outcome(st, bet_action_mult(act), bet);
            (o.0, o.1, p)
        } else {
            (Err(GameError::InvalidMove), None, p)
        },
        Stage::Flop => if act == Action::Check {
            let r = street_revealed(st, 3, 5, p);
            (Ok(GameResult::Continue), Some(UthView { stage: Stage::River, ..r.0 }), r.1)
        } else if act == Action::Bet2x {
            let o = play_outcome(st, 2, bet);
            (o.0, o.1, p)
        } else {
            (Err(GameError::InvalidMove), None, p)
        },
        Stage::River => if act == Action::Bet1x {
            let o = play_outcome(st, 1, bet);
            (o.0, o.1, p)
        } else if act == Action::Fold {
            showdown_outcome(UthView { play_mult: 0, ..st }, bet, p, super_active, mults)
        } else {
            (Err(GameError::InvalidMove), None, p)
        },
        Stage::AwaitingReveal => if act == Action::Reveal {
            if st.play_mult == 0 {
                (Err(GameError::InvalidMove), None, p)
            } else {
                showdown_outcome(st, bet, p, super_active, mults)
            }
        } else {
            (Err(GameError::InvalidMove), None, p)
        },
        Stage::Showdown => (Err(GameError::GameAlreadyComplete), None, p),
    }
}

/// The inputs on which an action is defined: no side-bet change and no play
/// bet whose negation would overflow an `i64`.
pub open spec fn action_defined(st: UthView, act: Action, payload: Seq<u8>, bet: u64) -> bool {
    match st.stage {
        Stage::Betting => payload.len() >= 9 ==> {
            let nb = payload_amount(payload);
            &&& act == Action::SetTrips ==> st.trips_bet - nb != 0x8000_0000_0000_0000
            &&& act == Action::SetSixCardBonus ==> st.six_card_bonus_bet - nb != 0x8000_0000_0000_0000
            &&& (act == Action::SetProgressive && (nb == 0 || nb == PROGRESSIVE_BET_UNIT))
                ==> st.progressive_bet - nb != 0x8000_0000_0000_0000
            &&& (act == Action::Deal && st.player[0] >= 52 && st.player[1] >= 52 && payload.len()
                == 9) ==> st.trips_bet - nb != 0x8000_0000_0000_0000
        },
        Stage::Preflop => (act == Action::Bet4x || act == Action::Bet3x) && st.play_mult == 0
            ==> sat_mul(bet as int, bet_action_mult(act) as int) != 0x8000_0000_0000_0000,
        Stage::Flop => act == Action::Bet2x && st.play_mult == 0 ==> sat_mul(bet as int, 2)
            != 0x8000_0000_0000_0000,
        Stage::River => act == Action::Bet1x && st.play_mult == 0 ==> bet != 0x8000_0000_0000_0000,
        _ => true,
    }
}

/// The error an action is refused with before its state is looked at, if any.
pub open spec fn action_error(is_complete: bool, blob: Seq<u8>, payload: Seq<u8>) -> Option<GameError> {
    if is_complete {
        Some(GameError::GameAlreadyComplete)
    } else if payload.len() == 0 || action_of(payload[0]) is None || parse_blob(blob) is None {
        Some(GameError::InvalidPayload)
    } else {
        None
    }
}

/// The state a session starts in: betting, no cards, no side bets.
pub open spec fn initial_view() -> UthView {
    UthView {
        stage: Stage::Betting,
        player: seq![CARD_UNKNOWN, CARD_UNKNOWN],
        community: seq![CARD_UNKNOWN, CARD_UNKNOWN, CARD_UNKNOWN, CARD_UNKNOWN, CARD_UNKNOWN],
        dealer: seq![CARD_UNKNOWN, CARD_UNKNOWN],
        play_mult: 0,
        trips_bet: 0,
        bonus: seq![CARD_UNKNOWN, CARD_UNKNOWN, CARD_UNKNOWN, CARD_UNKNOWN],
        six_card_bonus_bet: 0,
        progressive_bet: 0,
    }
}

/// Ultimate Texas Hold'em.
pub struct UltimateHoldem;

impl UltimateHoldem {
    /// An action in the betting stage.
    fn betting_action(state: UthState, act: Action, payload: &[u8], bet: u64, rng: &mut GameRng) -> (r: (
        Result<GameResult, GameError>,
        UthState,
    ))
        requires
            state@.stage == Stage::Betting,
            payload@.len() >= 1,
            action_defined(state@, act, payload@, bet),
        ensures
            ({
                let o = uth_outcome(state@, act, payload@, bet, old(rng)@, false, Seq::empty());
                &&& r.0 == o.0
                &&& final(rng)@ == o.2
                &&& o.1 matches Some(v) ==> r.1@ == v
            }),
    {
        let mut state = state;
        if act == Action::SetTrips || act == Action::SetSixCardBonus || act == Action::SetProgressive {
            let new_bet = match parse_u64_be(payload, 1) {
                Ok(b) => b,
                Err(e) => return (Err(e), state),
            };
            if act == Action::SetProgressive && new_bet != 0 && new_bet != PROGRESSIVE_BET_UNIT {
                return (Err(GameError::InvalidMove), state);
            }
            let change = if act == Action::SetTrips {
                apply_trips_update(&mut state, new_bet)
            } else if act == Action::SetSixCardBonus {
                apply_six_card_bonus_update(&mut state, new_bet)
            } else {
                apply_progressive_update(&mut state, new_bet)
            };
            match change {
                Ok(payout) => (Ok(continue_result(payout)), state),
                Err(e) => (Err(e), state),
            }
        } else if act == Action::Deal {
            if is_known_card(state.player[0]) || is_known_card(state.player[1]) {
                return (Err(GameError::InvalidMove), state);
            }
            let mut payout_update: i64 = 0;
            if payload.len() == 9 {
                let new_trips = read_u64_be(payload, 1);
                match apply_trips_update(&mut state, new_trips) {
                    Ok(p) => {
                        payout_update = p;
                    },
                    Err(e) => return (Err(e), state),
                }
            } else if payload.len() != 1 {
                return (Err(GameError::InvalidPayload), state);
            }
            let mut deck = rng.create_deck();
            let a = draw_from(rng, &mut deck);
            let b = draw_from(rng, &mut deck);
            let player: [u8; 2] = [a, b];
            assert(player@ =~= seq![a, b]);
            state.player = player;
            state.stage = Stage::Preflop;
            (Ok(continue_result(payout_update)), state)
        } else {
            (Err(GameError::InvalidMove), state)
        }
    }

    /// Placing the play bet of `mult` times the ante.
    fn place_play(state: UthState, mult: u8, bet: u64) -> (r: (Result<GameResult, GameError>, UthState))
        requires
            state.play_mult == 0 ==> sat_mul(bet as int, mult as int) != 0x8000_0000_0000_0000,
        ensures
            ({
                let o = play_outcome(state@, mult, bet);
                &&& r.0 == o.0
                &&& o.1 matches Some(v) ==> r.1@ == v
            }),
    {
        if state.play_mult != 0 {
            return (Err(GameError::InvalidMove), state);
        }
        let mut state = state;
        let play_bet = saturating_mul_u64(bet, mult as u64);
        state.play_mult = mult;
        state.stage = Stage::AwaitingReveal;
        let wager = u64_as_i64(play_bet);
        (Ok(GameResult::ContinueWithUpdate { payout: -wager }), state)
    }

    /// Reveals everything left and resolves the showdown.
    fn to_showdown(state: UthState, session: &mut GameSession, rng: &mut GameRng) -> (r: (
        Result<GameResult, GameError>,
        UthState,
    ))
        ensures
            ({
                let o = showdown_outcome(
                    state@,
                    old(session).bet,
                    old(rng)@,
                    old(session).super_mode.is_active,
                    old(session).super_mode.multipliers@,
                );
                &&& r.0 == o.0
                &&& final(rng)@ == o.2
                &&& o.1 matches Some(v) ==> r.1@ == v
                &&& r.0 is Ok ==> *final(session) == (GameSession { is_complete: true, ..*old(session) })
                &&& r.0 is Err ==> *final(session) == *old(session)
            }),
    {
        let mut state = state;
        let _ = draw_into_unknowns(&mut state, rng, true);
        let result = resolve_showdown(session, &mut state);
        (result, state)
    }
}

impl CasinoGame for UltimateHoldem {
    open spec fn init_requires(s0: GameSession) -> bool {
        init_requires(s0)
    }

    open spec fn init_ensures(s0: GameSession, p0: RngPoint, r: GameResult, s1: GameSession, p1: RngPoint) -> bool {
        init_ensures(s0, p0, r, s1, p1)
    }

    open spec fn move_requires(s0: GameSession, payload: Seq<u8>, p0: RngPoint) -> bool {
        move_requires(s0, payload, p0)
    }

    open spec fn move_ensures(
        s0: GameSession,
        payload: Seq<u8>,
        p0: RngPoint,
        r: Result<GameResult, GameError>,
        s1: GameSession,
        p1: RngPoint,
    ) -> bool {
        move_ensures(s0, payload, p0, r, s1, p1)
    }

    /// Starts a session in the betting stage, so side bets can be placed
    /// before any card is dealt, and takes the blind.
    fn init(session: &mut GameSession, rng: &mut GameRng) -> (r: GameResult) {
        let state = UthState {
            stage: Stage::Betting,
            player: [CARD_UNKNOWN, CARD_UNKNOWN],
            community: [CARD_UNKNOWN, CARD_UNKNOWN, CARD_UNKNOWN, CARD_UNKNOWN, CARD_UNKNOWN],
            dealer: [CARD_UNKNOWN, CARD_UNKNOWN],
            play_mult: 0,
            trips_bet: 0,
            bonus: [CARD_UNKNOWN, CARD_UNKNOWN, CARD_UNKNOWN, CARD_UNKNOWN],
            six_card_bonus_bet: 0,
            progressive_bet: 0,
        };
        assert(state@.player =~= initial_view().player);
        assert(state@.community =~= initial_view().community);
        assert(state@.dealer =~= initial_view().dealer);
        assert(state@.bonus =~= initial_view().bonus);
        session.state_blob = serialize_state(&state);
        let blind = u64_as_i64(session.bet);
        GameResult::ContinueWithUpdate { payout: -blind }
    }

    /// Processes one action.
    #[verifier::spinoff_prover]
    #[verifier::rlimit(40)]
    fn process_move(session: &mut GameSession, payload: &[u8], rng: &mut GameRng) -> (r: Result<
        GameResult,
        GameError,
    >) {
        if session.is_complete {
            return Err(GameError::GameAlreadyComplete);
        }
        if payload.len() == 0 {
            return Err(GameError::InvalidPayload);
        }
        let action = match Action::try_from(payload[0]) {
            Ok(a) => a,
            Err(e) => return Err(e),
        };
        let state = match parse_state(session.state_blob.as_slice()) {
            Some(s) => s,
            None => return Err(GameError::InvalidPayload),
        };
        let (result, next) = match state.stage {
            Stage::Betting => Self::betting_action(state, action, payload, session.bet, rng),
            Stage::Preflop => {
                if action == Action::Check {
                    let mut next = state;
                    reveal_street(&mut next, rng, 0, 3);
                    next.stage = Stage::Flop;
                    (Ok(GameResult::Continue), next)
                } else if action == Action::Bet4x {
                    Self::place_play(state, 4, session.bet)
                } else if action == Action::Bet3x {
                    Self::place_play(state, 3, session.bet)
                } else {
                    (Err(GameError::InvalidMove), state)
                }
            },
            Stage::Flop => {
                if action == Action::Check {
                    let mut next = state;
                    reveal_street(&mut next, rng, 3, 5);
                    next.stage = Stage::River;
                    (Ok(GameResult::Continue), next)
                } else if action == Action::Bet2x {
                    Self::place_play(state, 2, session.bet)
                } else {
                    (Err(GameError::InvalidMove), state)
                }
            },
            Stage::River => {
                if action == Action::Bet1x {
                    Self::place_play(state, 1, session.bet)
                } else if action == Action::Fold {
                    let mut folded = state;
                    folded.play_mult = 0;
                    Self::to_showdown(folded, session, rng)
                } else {
                    (Err(GameError::InvalidMove), state)
                }
            },
            Stage::AwaitingReveal => {
                if action == Action::Reveal {
                    if state.play_mult == 0 {
                        (Err(GameError::InvalidMove), state)
                    } else {
                        Self::to_showdown(state, session, rng)
                    }
                } else {
                    (Err(GameError::InvalidMove), state)
                }
            },
            Stage::Showdown => (Err(GameError::GameAlreadyComplete), state),
        };
        match result {
            Ok(res) => {
                session.state_blob = serialize_state(&next);
                if next.stage == Stage::Showdown {
                    session.is_complete = true;
                }
                Ok(res)
            },
            Err(e) => Err(e),
        }
    }
}

/// What `process_move` requires of a session, a payload and a stream point.
pub open spec fn move_requires(s0: GameSession, payload: Seq<u8>, p0: RngPoint) -> bool {
    &&& action_error(s0.is_complete, s0.state_blob@, payload) is None
                ==> action_defined(
                parse_blob(s0.state_blob@).unwrap(),
                action_of(payload[0]).unwrap(),
                payload,
                s0.bet,
            )
}

/// What `process_move` ensures of a session, a payload and a stream point
/// before (`s0`, `p0`) and after (`s1`, `p1`) the move, with result `r`.
pub open spec fn move_ensures(
    s0: GameSession,
    payload: Seq<u8>,
    p0: RngPoint,
    r: Result<GameResult, GameError>,
    s1: GameSession,
    p1: RngPoint,
) -> bool {
    &&& match action_error(s0.is_complete, s0.state_blob@, payload) {
                Some(e) => r == Err::<GameResult, GameError>(e) && s1 == s0
                    && p1 == p0,
                None => {
                    let o = uth_outcome(
                        parse_blob(s0.state_blob@).unwrap(),
                        action_of(payload[0]).unwrap(),
                        payload,
                        s0.bet,
                        p0,
                        s0.super_mode.is_active,
                        s0.super_mode.multipliers@,
                    );
                    &&& r == o.0
                    &&& p1 == o.2
                    &&& session_fields_kept(s0, s1)
                    &&& s1.move_count == s0.move_count
                    &&& match o.1 {
                        Some(v) => s1.state_blob@ == state_bytes(v)
                            && s1.is_complete == (v.stage == Stage::Showdown),
                        None => s1.state_blob@ == s0.state_blob@
                            && s1.is_complete == s0.is_complete,
                    }
                },
            }
}

/// What `init` requires of a session.
pub open spec fn init_requires(s0: GameSession) -> bool {
    &&& s0.bet != 0x8000_0000_0000_0000
}

/// What `init` ensures of a session and a stream point before (`s0`, `p0`)
/// and after (`s1`, `p1`), with result `r`.
pub open spec fn init_ensures(s0: GameSession, p0: RngPoint, r: GameResult, s1: GameSession, p1: RngPoint) -> bool {
    &&& r == (GameResult::ContinueWithUpdate { payout: (-wrap_i64(s0.bet)) as i64 })
    &&& s1.state_blob@ == state_bytes(initial_view())
    &&& session_fields_kept(s0, s1)
    &&& s1.is_complete == s0.is_complete
    &&& s1.move_count == s0.move_count
    &&& p1 == p0
}

} // verus!
