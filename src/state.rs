use vstd::prelude::*;
use crate::card::{Card, rank_points, card_key, distinct_cards, lemma_distinct_by_map};
use crate::deck::{Deck, all_cards_face_up};
use crate::hand::{Hand, HAND_CAPACITY, hand_value, soft_total, ace_count, all_face_up};

verus! {

/// Phases of a round; the phase alone decides which transitions are legal.
#[derive(Debug, Clone, Copy, PartialEq, Eq, Structural)]
pub enum GameState {
    WaitingForStart,
    DealerDealing,
    PlayerTurn,
    DealerTurn,
    DealerRevealing,
    DealerDrawing,
    GameOver,
}

/// Outcome of a round, set when it enters `GameOver`.
#[derive(Debug, Clone, Copy, PartialEq, Eq, Structural)]
pub enum GameResult {
    PlayerWins,
    DealerWins,
    Push,
    InProgress,
}

/// Everything a round consists of, as mathematical values. The deck lists
/// its bottom card first; cards are drawn from the end.
pub struct GameView {
    pub deck: Seq<Card>,
    pub player: Seq<Card>,
    pub dealer: Seq<Card>,
    pub state: GameState,
    pub result: GameResult,
    pub dealer_revealed: bool,
}

/// Dealer's threshold: at this total or above the dealer stands.
pub const DEALER_STANDS_AT: u8 = 17;

/// The hand after offering it a card: taken only while fewer than four are shown.
pub open spec fn offered(hand: Seq<Card>, c: Card) -> Seq<Card> {
    if hand.len() < HAND_CAPACITY { hand.push(c) } else { hand }
}

/// Exactly two cards worth 21.
pub open spec fn is_blackjack(cards: Seq<Card>) -> bool {
    cards.len() == 2 && hand_value(cards) == 21
}

/// Higher value wins; equal values are a push.
pub open spec fn winner(player: Seq<Card>, dealer: Seq<Card>) -> GameResult {
    if hand_value(player) > hand_value(dealer) {
        GameResult::PlayerWins
    } else if hand_value(player) < hand_value(dealer) {
        GameResult::DealerWins
    } else {
        GameResult::Push
    }
}

/// Sum of the face-up cards alone, aces at 11.
pub open spec fn face_up_total(cards: Seq<Card>) -> nat
    decreases cards.len(),
{
    if cards.len() == 0 {
        0
    } else {
        face_up_total(cards.drop_last()) + if cards.last().is_face_up { rank_points(cards.last().value) } else { 0 }
    }
}

/// A new round on the given deck.
pub open spec fn started(v: GameView, deck: Seq<Card>) -> GameView {
    GameView {
        deck,
        player: Seq::empty(),
        dealer: Seq::empty(),
        state: GameState::DealerDealing,
        result: GameResult::InProgress,
        dealer_revealed: false,
    }
}

/// The top card goes to the player, if the deck has one.
pub open spec fn dealt_to_player(v: GameView) -> GameView {
    if v.deck.len() == 0 {
        v
    } else {
        GameView { deck: v.deck.drop_last(), player: offered(v.player, v.deck.last()), ..v }
    }
}

/// The top card goes to the dealer, turned as asked, if the deck has one.
pub open spec fn dealt_to_dealer(v: GameView, face_up: bool) -> GameView {
    if v.deck.len() == 0 {
        v
    } else {
        GameView {
            deck: v.deck.drop_last(),
            dealer: offered(v.dealer, Card { is_face_up: face_up, ..v.deck.last() }),
            ..v
        }
    }
}

/// Round over, decided by comparing values.
pub open spec fn decided(v: GameView) -> GameView {
    GameView { state: GameState::GameOver, result: winner(v.player, v.dealer), ..v }
}

/// The initial deal: player, dealer face up, player, dealer face down. A
/// player BlackJack ends the round at once with the dealer's hand shown.
pub open spec fn after_deal(v: GameView) -> GameView {
    if v.state != GameState::DealerDealing {
        v
    } else {
        let d = dealt_to_dealer(dealt_to_player(dealt_to_dealer(dealt_to_player(v), true)), false);
        if is_blackjack(d.player) {
            GameView {
                dealer: all_face_up(d.dealer),
                dealer_revealed: true,
                state: GameState::GameOver,
                result: if is_blackjack(d.dealer) { GameResult::Push } else { GameResult::PlayerWins },
                ..d
            }
        } else {
            GameView { state: GameState::PlayerTurn, ..d }
        }
    }
}

/// Whether a hit is carried out: in the player's turn, with a card left.
pub open spec fn hit_happens(v: GameView) -> bool {
    v.state == GameState::PlayerTurn && v.deck.len() > 0
}

/// A hit. With four cards shown the drawn card is discarded and the turn
/// passes to the dealer; a bust ends the round for the dealer with the
/// dealer's hidden card left hidden.
pub open spec fn after_hit(v: GameView) -> GameView {
    if !hit_happens(v) {
        v
    } else if v.player.len() >= HAND_CAPACITY {
        GameView { deck: v.deck.drop_last(), state: GameState::DealerTurn, ..v }
    } else {
        let p = v.player.push(v.deck.last());
        if hand_value(p) > 21 {
            GameView {
                deck: v.deck.drop_last(),
                player: p,
                result: GameResult::DealerWins,
                state: GameState::GameOver,
                ..v
            }
        } else {
            GameView { deck: v.deck.drop_last(), player: p, ..v }
        }
    }
}

pub open spec fn after_stand(v: GameView) -> GameView {
    if v.state == GameState::PlayerTurn {
        GameView { state: GameState::DealerTurn, ..v }
    } else {
        v
    }
}

pub open spec fn after_dealer_turn_starts(v: GameView) -> GameView {
    if v.state == GameState::DealerTurn {
        GameView { state: GameState::DealerRevealing, ..v }
    } else {
        v
    }
}

/// The dealer's cards are shown; under 17 the dealer goes on to draw,
/// otherwise the round is decided.
pub open spec fn after_reveal(v: GameView) -> GameView {
    if v.state != GameState::DealerRevealing {
        v
    } else {
        let w = GameView { dealer: all_face_up(v.dealer), dealer_revealed: true, ..v };
        if hand_value(w.dealer) < DEALER_STANDS_AT {
            GameView { state: GameState::DealerDrawing, ..w }
        } else {
            decided(w)
        }
    }
}

/// Whether a dealer draw takes a card from the deck.
pub open spec fn dealer_draw_happens(v: GameView) -> bool {
    v.state == GameState::DealerDrawing && hand_value(v.dealer) < DEALER_STANDS_AT && v.deck.len() > 0
}

/// One dealer draw. At 17 or more the dealer stands without drawing. A
/// draw onto four shown cards is discarded and the round decided; a bust
/// goes to the player; reaching 17 decides the round.
pub open spec fn after_dealer_draw(v: GameView) -> GameView {
    if v.state != GameState::DealerDrawing {
        v
    } else if hand_value(v.dealer) >= DEALER_STANDS_AT {
        decided(v)
    } else if v.deck.len() == 0 {
        v
    } else if v.dealer.len() >= HAND_CAPACITY {
        decided(GameView { deck: v.deck.drop_last(), ..v })
    } else {
        let w = GameView { deck: v.deck.drop_last(), dealer: v.dealer.push(v.deck.last()), ..v };
        if hand_value(w.dealer) > 21 {
            GameView { result: GameResult::PlayerWins, state: GameState::GameOver, ..w }
        } else if hand_value(w.dealer) >= DEALER_STANDS_AT {
            decided(w)
        } else {
            w
        }
    }
}

/// What `dealer_value` reports: until the dealer's cards are revealed only
/// the face-up cards count, aces at 11; once revealed, the full value.
pub open spec fn shown_dealer_value(v: GameView) -> int {
    if !v.dealer_revealed {
        face_up_total(v.dealer) as int
    } else {
        hand_value(v.dealer)
    }
}

/// The turn passes to the dealer once the player reaches 21; ignored
/// outside the player's turn.
pub open spec fn after_has_21(v: GameView) -> GameView {
    if v.state == GameState::PlayerTurn {
        GameView { state: GameState::DealerTurn, ..v }
    } else {
        v
    }
}

/// Every card on the table: the deck, then the player's, then the dealer's.
pub open spec fn table_cards(v: GameView) -> Seq<Card> {
    v.deck + v.player + v.dealer
}

/// What holds of every round: it is over exactly when it has a result; the
/// deck's cards lie face up; no card is on the table twice.
pub open spec fn valid_round(v: GameView) -> bool {
    &&& (v.state == GameState::GameOver) == (v.result != GameResult::InProgress)
    &&& all_cards_face_up(v.deck)
    &&& distinct_cards(table_cards(v))
}

proof fn lemma_top_card_moves(deck: Seq<Card>, p: Seq<Card>, d: Seq<Card>, c: Card)
    requires
        distinct_cards(deck + p + d),
        deck.len() > 0,
        card_key(c) == card_key(deck.last()),
    ensures
        distinct_cards(deck.drop_last() + p.push(c) + d),
        distinct_cards(deck.drop_last() + p + d.push(c)),
        distinct_cards(deck.drop_last() + p + d),
{
    let s = deck + p + d;
    let n = deck.len() as int;
    let pl = p.len() as int;
    let dl = d.len() as int;
    let t1 = deck.drop_last() + p.push(c) + d;
    let f1 = |i: int| if i < n - 1 { i } else if i < n - 1 + pl { i + 1 } else if i == n - 1 + pl { n - 1 } else { i };
    assert forall|i: int| 0 <= i < t1.len() implies 0 <= #[trigger] f1(i) < s.len() && card_key(t1[i]) == card_key(s[f1(i)]) by {
        if i < n - 1 {
        } else if i < n - 1 + pl {
            assert(t1[i] == p[i - (n - 1)]);
            assert(s[i + 1] == p[i + 1 - n]);
        } else if i == n - 1 + pl {
            assert(t1[i] == c);
        } else {
            assert(t1[i] == d[i - n - pl]);
            assert(s[i] == d[i - n - pl]);
        }
    }
    lemma_distinct_by_map(s, t1, f1);
    let t2 = deck.drop_last() + p + d.push(c);
    let f2 = |i: int| if i < n - 1 { i } else if i < n - 1 + pl + dl { i + 1 } else { n - 1 };
    assert forall|i: int| 0 <= i < t2.len() implies 0 <= #[trigger] f2(i) < s.len() && card_key(t2[i]) == card_key(s[f2(i)]) by {
        if i < n - 1 {
        } else if i < n - 1 + pl {
            assert(t2[i] == p[i - (n - 1)]);
            assert(s[i + 1] == p[i + 1 - n]);
        } else if i < n - 1 + pl + dl {
            assert(t2[i] == d[i - (n - 1) - pl]);
            assert(s[i + 1] == d[i + 1 - n - pl]);
        } else {
            assert(t2[i] == c);
        }
    }
    lemma_distinct_by_map(s, t2, f2);
    let t3 = deck.drop_last() + p + d;
    let f3 = |i: int| if i < n - 1 { i } else { i + 1 };
    assert forall|i: int| 0 <= i < t3.len() implies 0 <= #[trigger] f3(i) < s.len() && card_key(t3[i]) == card_key(s[f3(i)]) by {
        if i < n - 1 {
        } else if i < n - 1 + pl {
            assert(t3[i] == p[i - (n - 1)]);
            assert(s[i + 1] == p[i + 1 - n]);
        } else {
            assert(t3[i] == d[i - (n - 1) - pl]);
            assert(s[i + 1] == d[i + 1 - n - pl]);
        }
    }
    lemma_distinct_by_map(s, t3, f3);
}

proof fn lemma_dealer_turned_up(deck: Seq<Card>, p: Seq<Card>, d: Seq<Card>)
    requires
        distinct_cards(deck + p + d),
    ensures
        distinct_cards(deck + p + all_face_up(d)),
{
    let s = deck + p + d;
    let t = deck + p + all_face_up(d);
    let f = |i: int| i;
    assert forall|i: int| 0 <= i < t.len() implies 0 <= #[trigger] f(i) < s.len() && card_key(t[i]) == card_key(s[f(i)]) by {
        if i >= deck.len() + p.len() {
            assert(t[i] == all_face_up(d)[i - deck.len() - p.len()]);
        }
    }
    lemma_distinct_by_map(s, t, f);
}

proof fn lemma_deals_keep_valid(v: GameView, face_up: bool)
    requires
        all_cards_face_up(v.deck),
        distinct_cards(table_cards(v)),
    ensures
        all_cards_face_up(dealt_to_player(v).deck),
        distinct_cards(table_cards(dealt_to_player(v))),
        all_cards_face_up(dealt_to_dealer(v, face_up).deck),
        distinct_cards(table_cards(dealt_to_dealer(v, face_up))),
        dealt_to_player(v).state == v.state && dealt_to_player(v).result == v.result,
        dealt_to_dealer(v, face_up).state == v.state && dealt_to_dealer(v, face_up).result == v.result,
{
    if v.deck.len() > 0 {
        lemma_top_card_moves(v.deck, v.player, v.dealer, v.deck.last());
        lemma_top_card_moves(v.deck, v.player, v.dealer, Card { is_face_up: face_up, ..v.deck.last() });
    }
}

/// Every move keeps a round valid, and a round started on a deck of
/// distinct face-up cards is valid.
pub proof fn lemma_moves_keep_round_valid(v: GameView)
    requires
        valid_round(v),
    ensures
        valid_round(after_deal(v)),
        valid_round(after_hit(v)),
        valid_round(after_stand(v)),
        valid_round(after_dealer_turn_starts(v)),
        valid_round(after_reveal(v)),
        valid_round(after_dealer_draw(v)),
        valid_round(after_has_21(v)),
{
    if v.state == GameState::DealerDealing {
        let s1 = dealt_to_player(v);
        lemma_deals_keep_valid(v, true);
        let s2 = dealt_to_dealer(s1, true);
        lemma_deals_keep_valid(s1, true);
        let s3 = dealt_to_player(s2);
        lemma_deals_keep_valid(s2, true);
        let s4 = dealt_to_dealer(s3, false);
        lemma_deals_keep_valid(s3, false);
        lemma_dealer_turned_up(s4.deck, s4.player, s4.dealer);
    }
    if v.deck.len() > 0 {
        lemma_top_card_moves(v.deck, v.player, v.dealer, v.deck.last());
    }
    lemma_dealer_turned_up(v.deck, v.player, v.dealer);
}

/// A round started on a deck of distinct face-up cards is valid.
pub proof fn lemma_start_is_valid(v: GameView, deck: Seq<Card>)
    requires
        all_cards_face_up(deck),
        distinct_cards(deck),
    ensures
        valid_round(started(v, deck)),
{
    assert(table_cards(started(v, deck)) =~= deck);
}

proof fn lemma_face_flags_ignored(cards: Seq<Card>)
    ensures
        soft_total(all_face_up(cards)) == soft_total(cards),
        ace_count(all_face_up(cards)) == ace_count(cards),
        hand_value(all_face_up(cards)) == hand_value(cards),
        all_face_up(cards).len() == cards.len(),
    decreases cards.len(),
{
    if cards.len() > 0 {
        lemma_face_flags_ignored(cards.drop_last());
        assert(all_face_up(cards).drop_last() =~= all_face_up(cards.drop_last()));
    }
}

proof fn lemma_face_up_total_bound(cards: Seq<Card>)
    ensures
        face_up_total(cards) <= 11 * cards.len(),
    decreases cards.len(),
{
    if cards.len() > 0 {
        lemma_face_up_total_bound(cards.drop_last());
    }
}

/// The opening deal of a fresh round, off a deck of face-up cards whose top
/// is at the end: the player gets the first and third cards, face up; the
/// dealer the second, face up, and the fourth, face down, in that order; then
/// the player's turn begins. This holds unless the player's two cards make a
/// BlackJack, which reveals the dealer's hand and ends the round.
pub proof fn lemma_fresh_deal_order(v: GameView, deck: Seq<Card>)
    requires
        deck.len() >= 4,
        all_cards_face_up(deck),
        !is_blackjack(seq![deck[deck.len() - 1], deck[deck.len() - 3]]),
    ensures
        ({
            let g = after_deal(started(v, deck));
            let n = deck.len() as int;
            &&& g.player == seq![deck[n - 1], deck[n - 3]]
            &&& g.player[0].is_face_up && g.player[1].is_face_up
            &&& g.dealer == seq![deck[n - 2], Card { is_face_up: false, ..deck[n - 4] }]
            &&& g.dealer[0].is_face_up && !g.dealer[1].is_face_up
            &&& g.state == GameState::PlayerTurn
            &&& g.deck == deck.take(n - 4)
        }),
{
    let n = deck.len() as int;
    let s0 = started(v, deck);
    let s1 = dealt_to_player(s0);
    let s2 = dealt_to_dealer(s1, true);
    let s3 = dealt_to_player(s2);
    let s4 = dealt_to_dealer(s3, false);
    assert(deck[n - 1].is_face_up && deck[n - 2].is_face_up && deck[n - 3].is_face_up);
    assert(s1.deck =~= deck.take(n - 1));
    assert(s2.deck =~= deck.take(n - 2));
    assert(s3.deck =~= deck.take(n - 3));
    assert(s4.deck =~= deck.take(n - 4));
    assert(s4.player =~= seq![deck[n - 1], deck[n - 3]]);
    assert(Card { is_face_up: true, ..deck[n - 2] } == deck[n - 2]);
    assert(s4.dealer =~= seq![deck[n - 2], Card { is_face_up: false, ..deck[n - 4] }]);
}

/// The dealer's drawing rule. On reveal the dealer goes on to draw, with the
/// round still undecided, exactly when under 17. While drawing, the dealer
/// never takes a card at 17 or more, does take one when under 17 with fewer
/// than four cards and a card left, and does not stop, nor is the round
/// decided, while still under 17 with fewer than four cards.
pub proof fn lemma_dealer_drawing_rule(v: GameView)
    requires
        valid_round(v),
    ensures
        v.state == GameState::DealerRevealing ==> (after_reveal(v).state == GameState::DealerDrawing
            <==> hand_value(v.dealer) < 17),
        v.state == GameState::DealerRevealing && hand_value(v.dealer) < 17 ==> after_reveal(v).result
            == GameResult::InProgress,
        v.state == GameState::DealerRevealing && hand_value(v.dealer) >= 17 ==> after_reveal(v).state
            == GameState::GameOver && after_reveal(v).result == winner(v.player, v.dealer),
        v.state == GameState::DealerDrawing && hand_value(v.dealer) >= 17 ==> {
            &&& after_dealer_draw(v).dealer == v.dealer
            &&& after_dealer_draw(v).deck == v.deck
            &&& after_dealer_draw(v).state == GameState::GameOver
        },
        v.state == GameState::DealerDrawing && hand_value(v.dealer) < 17 && v.dealer.len() < 4
            && v.deck.len() > 0 ==> after_dealer_draw(v).dealer == v.dealer.push(v.deck.last()),
        v.state == GameState::DealerDrawing && v.dealer.len() < 4 && hand_value(after_dealer_draw(v).dealer) < 17
            ==> after_dealer_draw(v).state == GameState::DealerDrawing && after_dealer_draw(v).result
            == GameResult::InProgress,
{
    lemma_face_flags_ignored(v.dealer);
}

/// Hitting to exactly 21 with a third or fourth card neither busts nor
/// ends the round: it stays the player's turn, undecided, and the hand is
/// no BlackJack. The 21 then passes the turn to the dealer with the round
/// still undecided, after which the player can no longer hit.
pub proof fn lemma_hit_to_21(v: GameView)
    requires
        valid_round(v),
        v.state == GameState::PlayerTurn,
        v.deck.len() > 0,
        2 <= v.player.len() < 4,
        hand_value(v.player.push(v.deck.last())) == 21,
    ensures
        after_hit(v).player == v.player.push(v.deck.last()),
        after_hit(v).state == GameState::PlayerTurn,
        after_hit(v).result == GameResult::InProgress,
        !is_blackjack(after_hit(v).player),
        after_has_21(after_hit(v)).state == GameState::DealerTurn,
        after_has_21(after_hit(v)).result == GameResult::InProgress,
        after_has_21(after_hit(v)).player == after_hit(v).player,
        after_has_21(after_hit(v)).dealer == v.dealer,
        !hit_happens(after_has_21(after_hit(v))),
{
}

/// Once the dealer's cards are revealed they stay revealed for the rest of
/// the round: only starting a new round clears the flag.
pub proof fn lemma_reveal_is_permanent(v: GameView)
    requires
        v.dealer_revealed,
    ensures
        after_deal(v).dealer_revealed,
        after_hit(v).dealer_revealed,
        after_stand(v).dealer_revealed,
        after_dealer_turn_starts(v).dealer_revealed,
        after_reveal(v).dealer_revealed,
        after_dealer_draw(v).dealer_revealed,
        after_has_21(v).dealer_revealed,
{
}

/// The player's moves and the start of the dealer's turn leave the dealer's
/// cards as they are, the hidden card included.
pub proof fn lemma_player_moves_keep_dealer_cards(v: GameView)
    ensures
        after_hit(v).dealer == v.dealer,
        after_stand(v).dealer == v.dealer,
        after_dealer_turn_starts(v).dealer == v.dealer,
        after_has_21(v).dealer == v.dealer,
{
}

/// A round of BlackJack between one player and the dealer.
pub struct BlackJackGame {
    deck: Deck,
    player_hand: Hand,
    dealer_hand: Hand,
    state: GameState,
    result: GameResult,
    dealer_cards_revealed: bool,
}

impl View for BlackJackGame {
    type V = GameView;

    closed spec fn view(&self) -> GameView {
        GameView {
            deck: self.deck@,
            player: self.player_hand@,
            dealer: self.dealer_hand@,
            state: self.state,
            result: self.result,
            dealer_revealed: self.dealer_cards_revealed,
        }
    }
}

impl BlackJackGame {
    /// The round is valid: see `valid_round`.
    pub open spec fn wf(&self) -> bool {
        valid_round(self@)
    }

    /// A game waiting for its first round, holding a clock-shuffled deck.
    pub fn new() -> (r: Self)
        ensures
            exists|seed: u64| r@.deck == crate::deck::shuffled_deck(seed),
            r@.player == Seq::<Card>::empty(),
            r@.dealer == Seq::<Card>::empty(),
            r@.state == GameState::WaitingForStart,
            r@.result == GameResult::InProgress,
            !r@.dealer_revealed,
            r.wf(),
    {
        let deck = Deck::new();
        proof {
            use_type_invariant(&deck);
            assert(deck@ + Seq::<Card>::empty() + Seq::<Card>::empty() =~= deck@);
        }
        BlackJackGame {
            deck,
            player_hand: Hand::new(),
            dealer_hand: Hand::new(),
            state: GameState::WaitingForStart,
            result: GameResult::InProgress,
            dealer_cards_revealed: false,
        }
    }

    /// Starts a new round on a fresh deck shuffled from the system clock.
    pub fn start_game(&mut self)
        requires
            old(self).wf(),
        ensures
            exists|seed: u64| final(self)@ == started(old(self)@, crate::deck::shuffled_deck(seed)),
            final(self).wf(),
    {
        let deck = Deck::new();
        self.start_game_with_deck(deck);
    }

    /// Starts a new round on the given deck.
    pub fn start_game_with_deck(&mut self, deck: Deck)
        requires
            old(self).wf(),
        ensures
            final(self)@ == started(old(self)@, deck@),
            final(self).wf(),
    {
        proof {
            use_type_invariant(&deck);
            lemma_start_is_valid(self@, deck@);
        }
        self.deck = deck;
        self.player_hand = Hand::new();
        self.dealer_hand = Hand::new();
        self.state = GameState::DealerDealing;
        self.result = GameResult::InProgress;
        self.dealer_cards_revealed = false;
    }

    fn deal_to_player(&mut self)
        ensures
            final(self)@ == dealt_to_player(old(self)@),
    {
        if let Some(card) = self.deck.draw() {
            self.player_hand.add_card(card);
        }
    }

    fn deal_to_dealer(&mut self, face_up: bool)
        ensures
            final(self)@ == dealt_to_dealer(old(self)@, face_up),
    {
        if let Some(mut card) = self.deck.draw() {
            card.set_face_up(face_up);
            self.dealer_hand.add_card(card);
        }
    }

    /// Deals the opening cards: player, dealer face up, player, dealer face
    /// down. A player BlackJack reveals the dealer's hand and ends the round,
    /// as a push if the dealer has BlackJack too; otherwise the player's turn
    /// begins. Ignored outside the dealing phase.
    pub fn deal_initial_cards(&mut self)
        requires
            old(self).wf(),
        ensures
            final(self)@ == after_deal(old(self)@),
            final(self).wf(),
    {
        proof { lemma_moves_keep_round_valid(self@); }
        if self.state != GameState::DealerDealing {
            return;
        }
        self.deal_to_player();
        self.deal_to_dealer(true);
        self.deal_to_player();
        self.deal_to_dealer(false);
        if self.player_hand.is_blackjack() {
            let ghost before = self.dealer_hand@;
            self.dealer_hand.reveal_all();
            self.dealer_cards_revealed = true;
            proof { lemma_face_flags_ignored(before); }
            if self.dealer_hand.is_blackjack() {
                self.result = GameResult::Push;
            } else {
                self.result = GameResult::PlayerWins;
            }
            self.state = GameState::GameOver;
        } else {
            self.state = GameState::PlayerTurn;
        }
    }

    /// The player takes a card. Returns whether one was drawn: false outside
    /// the player's turn or with an empty deck. With four cards already
    /// shown the card is discarded and the turn passes to the dealer; a bust
    /// ends the round for the dealer without revealing the hidden card.
    pub fn player_hit(&mut self) -> (r: bool)
        requires
            old(self).wf(),
        ensures
            r == hit_happens(old(self)@),
            final(self)@ == after_hit(old(self)@),
            final(self).wf(),
    {
        proof { lemma_moves_keep_round_valid(self@); }
        if self.state != GameState::PlayerTurn {
            return false;
        }
        if let Some(card) = self.deck.draw() {
            if !self.player_hand.add_card(card) {
                self.state = GameState::DealerTurn;
                return true;
            }
            if self.player_hand.is_bust() {
                self.result = GameResult::DealerWins;
                self.state = GameState::GameOver;
            }
            return true;
        }
        false
    }

    /// The player stands; returns false and does nothing outside the player's turn.
    pub fn player_stand(&mut self) -> (r: bool)
        requires
            old(self).wf(),
        ensures
            r == (old(self)@.state == GameState::PlayerTurn),
            final(self)@ == after_stand(old(self)@),
            final(self).wf(),
    {
        proof { lemma_moves_keep_round_valid(self@); }
        if self.state != GameState::PlayerTurn {
            return false;
        }
        self.state = GameState::DealerTurn;
        true
    }

    /// Moves from the dealer's turn to revealing; ignored in any other phase.
    pub fn start_dealer_turn(&mut self)
        requires
            old(self).wf(),
        ensures
            final(self)@ == after_dealer_turn_starts(old(self)@),
            final(self).wf(),
    {
        proof { lemma_moves_keep_round_valid(self@); }
        if self.state != GameState::DealerTurn {
            return;
        }
        self.state = GameState::DealerRevealing;
    }

    /// Turns the dealer's cards face up; under 17 the dealer goes on to draw,
    /// otherwise the round is decided. Ignored outside the revealing phase.
    pub fn reveal_dealer_cards(&mut self)
        requires
            old(self).wf(),
        ensures
            final(self)@ == after_reveal(old(self)@),
            final(self).wf(),
    {
        proof { lemma_moves_keep_round_valid(self@); }
        if self.state != GameState::DealerRevealing {
            return;
        }
        let ghost before = self.dealer_hand@;
        self.dealer_hand.reveal_all();
        self.dealer_cards_revealed = true;
        proof { lemma_face_flags_ignored(before); }
        if self.dealer_hand.value() < DEALER_STANDS_AT {
            self.state = GameState::DealerDrawing;
        } else {
            self.state = GameState::GameOver;
            self.determine_winner();
        }
    }

    /// Whether the dealer is drawing and still under 17.
    pub fn dealer_needs_card(&self) -> (r: bool)
        ensures
            r == (self@.state == GameState::DealerDrawing && hand_value(self@.dealer) < DEALER_STANDS_AT),
    {
        self.state == GameState::DealerDrawing && self.dealer_hand.value() < DEALER_STANDS_AT
    }

    /// One dealer draw; returns whether a card was taken from the deck.
    /// At 17 or more the dealer stands and the round is decided instead.
    /// Ignored outside the drawing phase.
    pub fn dealer_draw_card(&mut self) -> (r: bool)
        requires
            old(self).wf(),
        ensures
            r == dealer_draw_happens(old(self)@),
            final(self)@ == after_dealer_draw(old(self)@),
            final(self).wf(),
    {
        proof { lemma_moves_keep_round_valid(self@); }
        if self.state != GameState::DealerDrawing {
            return false;
        }
        if self.dealer_hand.value() >= DEALER_STANDS_AT {
            self.state = GameState::GameOver;
            self.determine_winner();
            return false;
        }
        if let Some(card) = self.deck.draw() {
            if !self.dealer_hand.add_card(card) {
                self.state = GameState::GameOver;
                self.determine_winner();
                return true;
            }
            if self.dealer_hand.is_bust() {
                self.result = GameResult::PlayerWins;
                self.state = GameState::GameOver;
                return true;
            }
            if self.dealer_hand.value() >= DEALER_STANDS_AT {
                self.state = GameState::GameOver;
                self.determine_winner();
            }
            return true;
        }
        false
    }

    /// Sets the result by comparing the two hands' values.
    fn determine_winner(&mut self)
        ensures
            final(self)@ == (GameView { result: winner(old(self)@.player, old(self)@.dealer), ..old(self)@ }),
    {
        let player_value = self.player_hand.value();
        let dealer_value = self.dealer_hand.value();
        if player_value > dealer_value {
            self.result = GameResult::PlayerWins;
        } else if player_value < dealer_value {
            self.result = GameResult::DealerWins;
        } else {
            self.result = GameResult::Push;
        }
    }

    /// Get the current game state
    pub fn state(&self) -> (r: GameState)
        ensures
            r == self@.state,
    {
        self.state
    }

    /// Get the game result
    pub fn result(&self) -> (r: GameResult)
        ensures
            r == self@.result,
    {
        self.result
    }

    /// The player's hand value.
    pub fn player_value(&self) -> (r: u8)
        ensures
            r == hand_value(self@.player),
    {
        self.player_hand.value()
    }

    /// The dealer's value as the table may see it: until the dealer's cards
    /// are revealed only face-up cards count, aces at 11; afterwards the
    /// full value.
    pub fn dealer_value(&self) -> (r: u8)
        ensures
            r == shown_dealer_value(self@),
    {
        if !self.dealer_cards_revealed {
            let n = self.dealer_hand.card_count();
            let ghost cards = self.dealer_hand@;
            let mut value: u8 = 0;
            let mut i: usize = 0;
            while i < n
                invariant
                    n == cards.len(),
                    cards == self.dealer_hand@,
                    n <= HAND_CAPACITY,
                    i <= n,
                    value == face_up_total(cards.take(i as int)),
                decreases n - i,
            {
                proof {
                    assert(cards.take(i + 1).drop_last() =~= cards.take(i as int));
                    lemma_face_up_total_bound(cards.take(i as int));
                }
                let card = self.dealer_hand.get_card(i).unwrap();
                if card.is_face_up {
                    value = value + card.blackjack_value();
                }
                i = i + 1;
            }
            assert(cards.take(n as int) =~= cards);
            value
        } else {
            self.dealer_hand.value()
        }
    }

    /// Get a reference to the player's hand
    pub fn player_hand(&self) -> (r: &Hand)
        ensures
            r@ == self@.player,
    {
        &self.player_hand
    }

    /// Get a reference to the dealer's hand
    pub fn dealer_hand(&self) -> (r: &Hand)
        ensures
            r@ == self@.dealer,
    {
        &self.dealer_hand
    }

    /// Called once the player reaches 21: the turn passes to the dealer.
    /// Ignored outside the player's turn.
    pub fn player_has_21(&mut self)
        requires
            old(self).wf(),
        ensures
            final(self)@ == after_has_21(old(self)@),
            final(self).wf(),
    {
        proof { lemma_moves_keep_round_valid(self@); }
        if self.state != GameState::PlayerTurn {
            return;
        }
        self.state = GameState::DealerTurn;
    }
}

} // verus!
