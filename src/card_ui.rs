//! Keeps the card panels in step with the hands: each side's four panels are
//! cleared, then every card is drawn from its picture, or procedurally when
//! no picture decodes.
use vstd::prelude::*;
use crate::card::Card;
use crate::hand::Hand;
use crate::i2c_mux::{BusWrite, BusAttempt, I2cBus, issued};
use crate::card_displays::{
    CardDisplays, DisplayPosition, PANEL_WIDTH, PANEL_HEIGHT, position_channel, paint_writes, procedural_card_writes,
    clear_writes, init_all_writes, clear_all_writes,
};
use crate::images::{get_card_image, resolved_image};
use crate::pbm_image::{PBMImage, parse_pbm, display_bytes};

verus! {

/// `logs[i]` to `logs[i + 1]` is run `i` of the plan, succeeding as `oks[i]` says.
pub open spec fn runs_through(logs: Seq<Seq<BusAttempt>>, oks: Seq<bool>, plan: Seq<Seq<BusWrite>>) -> bool {
    &&& logs.len() == plan.len() + 1
    &&& oks.len() == plan.len()
    &&& forall|i: int| 0 <= i < plan.len() ==> issued(#[trigger] logs[i], logs[i + 1], plan[i], oks[i])
}

/// Several runs of writes, each stopping at its own first failure, one after
/// another; `ok` holds when every run succeeded.
pub open spec fn ran_each(before: Seq<BusAttempt>, after: Seq<BusAttempt>, plan: Seq<Seq<BusWrite>>, ok: bool) -> bool {
    exists|logs: Seq<Seq<BusAttempt>>, oks: Seq<bool>|
        #[trigger] runs_through(logs, oks, plan) && logs[0] == before && logs.last() == after
            && ok == (forall|i: int| 0 <= i < oks.len() ==> #[trigger] oks[i])
}

proof fn lemma_ran_each_empty(before: Seq<BusAttempt>)
    ensures
        ran_each(before, before, Seq::empty(), true),
{
    let logs = seq![before];
    let oks = Seq::<bool>::empty();
    assert(runs_through(logs, oks, Seq::empty()));
}

proof fn lemma_ran_each_step(before: Seq<BusAttempt>, mid: Seq<BusAttempt>, after: Seq<BusAttempt>, plan: Seq<Seq<BusWrite>>, ok1: bool, ok2: bool)
    requires
        plan.len() > 0,
        ran_each(before, mid, plan.drop_last(), ok1),
        issued(mid, after, plan.last(), ok2),
    ensures
        ran_each(before, after, plan, ok1 && ok2),
{
    let (logs, oks) = choose|logs: Seq<Seq<BusAttempt>>, oks: Seq<bool>|
        #[trigger] runs_through(logs, oks, plan.drop_last()) && logs[0] == before && logs.last() == mid
            && ok1 == (forall|i: int| 0 <= i < oks.len() ==> #[trigger] oks[i]);
    let logs2 = logs.push(after);
    let oks2 = oks.push(ok2);
    assert forall|i: int| 0 <= i < plan.len() implies issued(#[trigger] logs2[i], logs2[i + 1], plan[i], oks2[i]) by {
        if i < plan.len() - 1 {
            assert(logs2[i] == logs[i] && logs2[i + 1] == logs[i + 1] && oks2[i] == oks[i]);
            assert(plan[i] == plan.drop_last()[i]);
        }
    }
    assert(runs_through(logs2, oks2, plan));
    if ok1 && ok2 {
        assert forall|i: int| 0 <= i < oks2.len() implies #[trigger] oks2[i] by {
            if i < oks.len() {
                assert(oks2[i] == oks[i]);
            }
        }
    } else if !ok2 {
        assert(!oks2[oks.len() as int]);
    } else {
        let j = choose|j: int| 0 <= j < oks.len() && !#[trigger] oks[j];
        assert(!oks2[j]);
    }
}

/// Drawing one card at a channel: its picture painted when the table has
/// one that decodes, otherwise the procedural outline.
pub open spec fn card_writes(mux_address: u8, channel: u8, address: u8, card: Card, images: Seq<Option<Vec<u8>>>) -> Seq<BusWrite> {
    match resolved_image(card, images) {
        Some(data) => match parse_pbm(data) {
            Ok(img) => paint_writes(mux_address, channel, address, display_bytes(img, PANEL_WIDTH, PANEL_HEIGHT)),
            Err(_) => procedural_card_writes(mux_address, channel, address, card.is_face_up),
        },
        None => procedural_card_writes(mux_address, channel, address, card.is_face_up),
    }
}

/// Refreshing one side, whose four panels sit on channels `first` to
/// `first + 3`: clear the four, then draw each card on the next panel.
pub open spec fn side_plan(mux_address: u8, first: u8, address: u8, cards: Seq<Card>, images: Seq<Option<Vec<u8>>>) -> Seq<Seq<BusWrite>> {
    Seq::new(4, |i: int| clear_writes(mux_address, (first + i) as u8, address)) + Seq::new(
        cards.len(),
        |i: int| card_writes(mux_address, (first + i) as u8, address, cards[i], images),
    )
}

/// Channel of the dealer's first panel.
pub const DEALER_FIRST_CHANNEL: u8 = 0;

/// Channel of the player's first panel.
pub const PLAYER_FIRST_CHANNEL: u8 = 4;

/// The card panels together with the table of card pictures.
pub struct CardUI<I> {
    card_displays: CardDisplays<I>,
    images: Vec<Option<Vec<u8>>>,
}

impl<I> CardUI<I> {
    pub closed spec fn writes(&self) -> Seq<BusAttempt> {
        self.card_displays.writes()
    }

    pub closed spec fn mux_address(&self) -> u8 {
        self.card_displays.mux_address()
    }

    pub closed spec fn panel_address(&self) -> u8 {
        self.card_displays.panel_address()
    }

    /// The table of card pictures, by slot.
    pub closed spec fn image_table(&self) -> Seq<Option<Vec<u8>>> {
        self.images@
    }

    /// A card UI over the given panels and picture table.
    pub fn new(card_displays: CardDisplays<I>, images: Vec<Option<Vec<u8>>>) -> (r: Self)
        ensures
            r.writes() == card_displays.writes(),
            r.mux_address() == card_displays.mux_address(),
            r.panel_address() == card_displays.panel_address(),
            r.image_table() == images@,
    {
        CardUI { card_displays, images }
    }
}

impl<I: I2cBus> CardUI<I> {
    /// Brings up all eight panels.
    pub fn init_all_displays(&mut self) -> (r: Result<(), I::Error>)
        ensures
            issued(old(self).writes(), final(self).writes(),
                init_all_writes(old(self).mux_address(), old(self).panel_address()), r is Ok),
            final(self).mux_address() == old(self).mux_address(),
            final(self).panel_address() == old(self).panel_address(),
            final(self).image_table() == old(self).image_table(),
    {
        self.card_displays.init_all_displays()
    }

    /// Draws a card at a position: its picture when the table has one that
    /// decodes, else the procedural outline. A face-down card gets the back.
    pub fn display_card_with_image(&mut self, card: &Card, position: DisplayPosition) -> (r: Result<(), I::Error>)
        ensures
            issued(old(self).writes(), final(self).writes(),
                card_writes(old(self).mux_address(), position_channel(position), old(self).panel_address(), *card,
                    old(self).image_table()), r is Ok),
            final(self).mux_address() == old(self).mux_address(),
            final(self).panel_address() == old(self).panel_address(),
            final(self).image_table() == old(self).image_table(),
    {
        if let Some(image_data) = get_card_image(card, self.images.as_slice()) {
            if let Ok(image) = PBMImage::new(image_data) {
                if let Ok(buffer) = image.to_display_buffer(PANEL_WIDTH, PANEL_HEIGHT) {
                    return self.card_displays.paint(&buffer, position);
                }
            }
        }
        self.card_displays.display_card(card, position)
    }

    /// Refreshes one side: clears its four panels, then draws each card in
    /// turn. A failure on one panel does not stop the others; the first
    /// failure is returned.
    fn refresh_side(&mut self, hand: &Hand, positions: [DisplayPosition; 4], Ghost(first): Ghost<u8>) -> (r: Result<(), I::Error>)
        requires
            first == 0 || first == 4,
            forall|j: int| 0 <= j < 4 ==> position_channel(#[trigger] positions@[j]) == first + j,
        ensures
            ran_each(old(self).writes(), final(self).writes(),
                side_plan(old(self).mux_address(), first, old(self).panel_address(), hand@, old(self).image_table()),
                r is Ok),
            final(self).mux_address() == old(self).mux_address(),
            final(self).panel_address() == old(self).panel_address(),
            final(self).image_table() == old(self).image_table(),
    {
        let ghost m = self.mux_address();
        let ghost a = self.panel_address();
        let ghost table = self.image_table();
        let ghost plan = side_plan(m, first, a, hand@, table);
        let ghost start = self.writes();
        let count = hand.card_count();
        let mut result: Result<(), I::Error> = Ok(());
        assert(plan.take(0) =~= Seq::<Seq<BusWrite>>::empty());
        proof { lemma_ran_each_empty(start); }
        let mut i: usize = 0;
        while i < 4
            invariant
                i <= 4,
                count == hand@.len(),
                count <= 4,
                forall|j: int| 0 <= j < 4 ==> position_channel(#[trigger] positions@[j]) == first + j,
                m == old(self).mux_address(),
                a == old(self).panel_address(),
                table == old(self).image_table(),
                plan == side_plan(m, first, a, hand@, table),
                start == old(self).writes(),
                plan.len() == 4 + count,
                ran_each(start, self.writes(), plan.take(i as int), result is Ok),
                self.mux_address() == m,
                self.panel_address() == a,
                self.image_table() == table,
            decreases 4 - i,
        {
            let ghost mid = self.writes();
            let ghost ok1 = result is Ok;
            let r = self.card_displays.clear_display(positions[i]);
            proof {
                let p = plan.take(i + 1);
                assert(p.drop_last() =~= plan.take(i as int));
                assert(p.last() == clear_writes(m, (first + i) as u8, a));
                assert(ran_each(start, mid, p.drop_last(), ok1) && issued(mid, self.writes(), p.last(), r is Ok));
            }
            let ghost ok2 = r is Ok;
            if result.is_ok() {
                result = r;
            }
            proof {
                let p = plan.take(i + 1);
                assert((result is Ok) == (ok1 && ok2));
                assert(p.len() > 0);
                lemma_ran_each_step(start, mid, self.writes(), p, ok1, ok2);
            }
            i = i + 1;
        }
        let mut k: usize = 0;
        while k < count
            invariant
                k <= count,
                count == hand@.len(),
                count <= 4,
                forall|j: int| 0 <= j < 4 ==> position_channel(#[trigger] positions@[j]) == first + j,
                m == old(self).mux_address(),
                a == old(self).panel_address(),
                table == old(self).image_table(),
                plan == side_plan(m, first, a, hand@, table),
                plan.len() == 4 + count,
                start == old(self).writes(),
                ran_each(start, self.writes(), plan.take(4 + k), result is Ok),
                self.mux_address() == m,
                self.panel_address() == a,
                self.image_table() == table,
            decreases count - k,
        {
            let ghost mid = self.writes();
            let ghost ok1 = result is Ok;
            let card = hand.get_card(k).unwrap();
            let r = self.display_card_with_image(card, positions[k]);
            proof {
                let p = plan.take(4 + k + 1);
                assert(p.drop_last() =~= plan.take(4 + k));
                assert(p.last() == card_writes(m, (first + k) as u8, a, hand@[k as int], table));
                assert(ran_each(start, mid, p.drop_last(), ok1) && issued(mid, self.writes(), p.last(), r is Ok));
            }
            let ghost ok2 = r is Ok;
            if result.is_ok() {
                result = r;
            }
            proof {
                let p = plan.take(4 + k + 1);
                assert((result is Ok) == (ok1 && ok2));
                assert(p.len() > 0);
                lemma_ran_each_step(start, mid, self.writes(), p, ok1, ok2);
            }
            k = k + 1;
        }
        assert(plan.take(4 + count) =~= plan);
        result
    }

    /// Shows the dealer's hand on the dealer's four panels.
    pub fn update_dealer_hand(&mut self, hand: &Hand) -> (r: Result<(), I::Error>)
        ensures
            ran_each(old(self).writes(), final(self).writes(),
                side_plan(old(self).mux_address(), DEALER_FIRST_CHANNEL, old(self).panel_address(), hand@, old(self).image_table()),
                r is Ok),
            final(self).mux_address() == old(self).mux_address(),
            final(self).panel_address() == old(self).panel_address(),
            final(self).image_table() == old(self).image_table(),
    {
        let positions = [
            DisplayPosition::DealerCard1,
            DisplayPosition::DealerCard2,
            DisplayPosition::DealerCard3,
            DisplayPosition::DealerCard4,
        ];
        self.refresh_side(hand, positions, Ghost(DEALER_FIRST_CHANNEL))
    }

    /// Shows the player's hand on the player's four panels.
    pub fn update_player_hand(&mut self, hand: &Hand) -> (r: Result<(), I::Error>)
        ensures
            ran_each(old(self).writes(), final(self).writes(),
                side_plan(old(self).mux_address(), PLAYER_FIRST_CHANNEL, old(self).panel_address(), hand@, old(self).image_table()),
                r is Ok),
            final(self).mux_address() == old(self).mux_address(),
            final(self).panel_address() == old(self).panel_address(),
            final(self).image_table() == old(self).image_table(),
    {
        let positions = [
            DisplayPosition::PlayerCard1,
            DisplayPosition::PlayerCard2,
            DisplayPosition::PlayerCard3,
            DisplayPosition::PlayerCard4,
        ];
        self.refresh_side(hand, positions, Ghost(PLAYER_FIRST_CHANNEL))
    }

    /// Clears all eight panels.
    pub fn clear_all(&mut self) -> (r: Result<(), I::Error>)
        ensures
            issued(old(self).writes(), final(self).writes(),
                clear_all_writes(old(self).mux_address(), old(self).panel_address()), r is Ok),
            final(self).mux_address() == old(self).mux_address(),
            final(self).panel_address() == old(self).panel_address(),
            final(self).image_table() == old(self).image_table(),
    {
        self.card_displays.clear_all_displays()
    }
}

} // verus!
