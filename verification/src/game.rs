use vstd::prelude::*;
use rand::seq::SliceRandom;

use crate::board::{
    dealt_board, deal_layout, movable, Board, BoardPos, DepotRole,
    NUM_DEPOTS, NUM_SHADOWS, NUM_TABLEAUS,
};
use crate::card::{full_deck, suit_at, Card, Suit, ANIMAL_COPIES, DECK_SIZE, NUM_HUNTER_RANKS, NUM_SUITS, RANK_MIN};
use crate::rules::{
    above, auto_from, auto_ready, auto_step, can_move_to, can_select_at, can_stack_cards,
    check_auto_moves_m, count_done_tableaus, count_full_shadows, do_move_raw_m, freecell_top, is_busy_m, is_stack_seq, is_won_depots, onclick_m, ondoubleclick_m,
    replay, undo_possible_m, GameModel,
    apply_settings_m, lemma_layout_facts, lemma_replay_facts, lemma_replay_last,
    lemma_move_inverse, lemma_check_auto_frame, lemma_undo_wf, lemma_check_auto_shape,
    lemma_check_auto_wf, lemma_onclick_shape, lemma_onclick_wf, lemma_ondoubleclick_shape,
    lemma_ondoubleclick_wf, lemma_restart_shape, lemma_restart_wf, lemma_advance_shape,
    lemma_advance_wf, new_game_m, restart_m, undo_m, advance_animations_m, initial_model,
    replayed,
};

verus! {

/// The type of the key that names the current round of animations.
pub type AnimationKey = u16;

/// A move of the history: the cards from `pos1` went on top of the depot of `pos2`.
#[derive(Clone, Copy, Debug, PartialEq, Eq, Structural, Hash)]
pub struct ActionRecord {
    pub pos1: BoardPos,
    pub pos2: BoardPos,
}

/// The screen that is shown.
#[derive(Clone, Copy, Debug, PartialEq, Eq, Structural, Hash)]
pub enum ScreenState {
    Game,
    Settings,
    Help,
}

impl Default for ScreenState {
    fn default() -> (s: Self)
        ensures
            s == ScreenState::Game,
    {
        ScreenState::Game
    }
}

/// The look of the cards (there is one).
#[derive(Clone, Copy, Debug, PartialEq, Eq, Structural, Hash)]
pub struct Skin;

impl Default for Skin {
    fn default() -> (s: Self)
        ensures
            s == Skin,
    {
        Skin
    }
}

/// The settings a player can change.
#[derive(Clone, Copy, Debug, PartialEq, Eq, Structural, Hash)]
pub struct SettingsState {
    pub allow_undo: bool,
    pub skin: Skin,
}

/// The state of a game.
#[derive(Clone, Debug, PartialEq, Eq)]
pub struct GameState {
    pub board: Board,
    pub deal: Vec<Card>,
    /// Names the current round of animations; the end of a round with another key is stale.
    pub animation_key: AnimationKey,
    pub history: Vec<ActionRecord>,
    /// History lengths before each player move: undo goes back to the last one.
    pub undo_stack: Vec<usize>,
    pub already_won: bool,
    pub num_wins: i32,
    pub screen_state: ScreenState,
    pub allow_undo: bool,
    pub skin: Skin,
}

impl View for GameState {
    type V = GameModel;

    open spec fn view(&self) -> GameModel {
        GameModel {
            board: self.board@,
            deal: self.deal@,
            animation_key: self.animation_key,
            history: self.history@,
            undo_stack: self.undo_stack@.map_values(|x: usize| x as nat),
            already_won: self.already_won,
            num_wins: self.num_wins,
            screen_state: self.screen_state,
            allow_undo: self.allow_undo,
            skin: self.skin,
        }
    }
}

/// Shuffles the cards in place with the thread's random number generator: calls
/// `rand::seq::SliceRandom::shuffle` on the vector's slice with `rand::rng()`. Claimed:
/// the result holds the same cards, each as often as before (the shuffle only swaps
/// elements). Which order comes out is left open.
#[verifier::external_body]
fn shuffle_cards(cards: &mut Vec<Card>)
    ensures
        final(cards)@.to_multiset() == old(cards)@.to_multiset(),
{
    cards.shuffle(&mut rand::rng());
}

impl GameState {
    /// A new deal: the full deck, shuffled.
    pub fn new_deal() -> (deal: Vec<Card>)
        ensures
            deal@.to_multiset() == full_deck().to_multiset(),
            deal@.len() == DECK_SIZE,
    {
        let mut deck: Vec<Card> = Vec::with_capacity(DECK_SIZE);
        let suits = Suit::all();
        for i in 0..DECK_SIZE
            invariant
                suits@.len() == NUM_SUITS,
                forall|k: int| 0 <= k < NUM_SUITS ==> #[trigger] suits@[k] == suit_at(k),
                deck@ == full_deck().subrange(0, i as int),
        {
            let card = Card { rank: RANK_MIN + (i / NUM_SUITS) as u8, suit: suits[i % NUM_SUITS] };
            assert(card == full_deck()[i as int]);
            deck.push(card);
            assert(deck@ =~= full_deck().subrange(0, i + 1));
        }
        assert(deck@ =~= full_deck());
        proof {
            deck@.to_multiset_ensures();
        }
        shuffle_cards(&mut deck);
        proof {
            deck@.to_multiset_ensures();
        }
        deck
    }

    /// The state before the first game, then a new game.
    pub fn init() -> (res: Self)
        ensures
            res@.deal.to_multiset() == full_deck().to_multiset(),
            res@.deal.len() == DECK_SIZE,
            res@ == new_game_m(initial_model(), res@.deal).0,
            res@.wf(),
    {
        let mut res = GameState {
            board: Board::empty(),
            deal: Vec::new(),
            animation_key: 0,
            history: Vec::new(),
            undo_stack: Vec::new(),
            already_won: false,
            num_wins: 0,
            screen_state: ScreenState::Game,
            allow_undo: true,
            skin: Skin::default(),
        };
        assert(res@ == initial_model());
        res.new_game();
        res
    }

    /// A new game on a new deal. The flag says whether the state is to be stored.
    pub fn new_game(&mut self) -> (save: bool)
        ensures
            final(self)@.deal.to_multiset() == full_deck().to_multiset(),
            final(self)@.deal.len() == DECK_SIZE,
            (final(self)@, save) == new_game_m(old(self)@, final(self)@.deal),
            final(self)@.wf(),
    {
        let deal = Self::new_deal();
        let ghost d = deal@;
        let save = self.new_game_with_deal(deal);
        proof {
            lemma_check_auto_frame(GameModel {
                board: dealt_board(d),
                deal: d,
                history: Seq::empty(),
                undo_stack: Seq::empty(),
                ..GameModel { already_won: false, ..old(self)@ }
            });
        }
        save
    }

    /// A new game on the given deal: laid out, history and undo marks empty, no win
    /// yet, then the automatic moves. The flag says whether the state is to be stored.
    pub fn new_game_with_deal(&mut self, deal: Vec<Card>) -> (save: bool)
        ensures
            (final(self)@, save) == new_game_m(old(self)@, deal@),
            final(self)@.wf(),
    {
        let ghost m0 = self@;
        self.board = Board::from_deal(&deal);
        self.deal = deal;
        self.history.clear();
        self.undo_stack.clear();
        self.already_won = false;
        proof {
            assert(self@.undo_stack =~= Seq::<nat>::empty());
            lemma_layout_facts(deal@);
            assert(self@ == GameModel {
                board: dealt_board(deal@),
                deal: deal@,
                history: Seq::empty(),
                undo_stack: Seq::empty(),
                ..GameModel { already_won: false, ..m0 }
            });
            assert(self@.wf());
        }
        self.check_auto_moves();
        !self.is_busy()
    }

    /// Restart: when there are moves and undo is possible, the same deal from the
    /// start. The flag says whether the state is to be stored.
    pub fn restart(&mut self) -> (save: bool)
        ensures
            (final(self)@, save) == restart_m(old(self)@),
            old(self)@.well_shaped() ==> final(self)@.well_shaped(),
            old(self)@.wf() ==> final(self)@.wf(),
    {
        proof {
            if old(self)@.well_shaped() {
                lemma_restart_shape(old(self)@);
            }
            if old(self)@.wf() {
                lemma_restart_wf(old(self)@);
            }
        }
        if self.history.is_empty() || !self.undo_possible() {
            return false;
        }
        let ghost m0 = self@;
        self.board = Board::from_deal(&self.deal);
        self.history.clear();
        self.undo_stack.clear();
        proof {
            assert(self@.undo_stack =~= Seq::<nat>::empty());
            lemma_layout_facts(self@.deal);
            assert(self@ == GameModel {
                board: dealt_board(m0.deal),
                deal: m0.deal,
                history: Seq::empty(),
                undo_stack: Seq::empty(),
                ..m0
            });
            assert(self@.wf());
        }
        self.check_auto_moves();
        !self.is_busy()
    }

    /// Undo: unless animations run or undo is not possible, takes the last undo mark
    /// and moves cards back, last move first, until the history is as long as the
    /// mark. The flag says whether the state is to be stored.
    pub fn undo(&mut self) -> (save: bool)
        requires
            old(self)@.wf(),
        ensures
            (final(self)@, save) == undo_m(old(self)@),
            final(self)@.wf(),
    {
        if self.is_busy() || !self.undo_possible() {
            return false;
        }
        let ghost m0 = self@;
        let target_len = match self.undo_stack.pop() {
            Some(t) => t,
            None => return false,
        };
        assert(self@.undo_stack =~= m0.undo_stack.drop_last());
        assert(target_len == m0.undo_stack.last());
        assert(target_len <= m0.history.len());
        let ghost looped = m0.history.len() > target_len;
        while self.history.len() > target_len
            invariant
                target_len <= self@.history.len() <= m0.history.len(),
                self@.history == m0.history.subrange(0, self@.history.len() as int),
                self@.board.depots.len() == NUM_DEPOTS,
                replay(deal_layout(m0.deal), self@.history) == Some(self@.board.depots),
                self@.deal == m0.deal,
                self@.undo_stack == m0.undo_stack.drop_last(),
                self@.animation_key == m0.animation_key,
                self@.already_won == m0.already_won,
                self@.num_wins == m0.num_wins,
                self@.screen_state == m0.screen_state,
                self@.allow_undo == m0.allow_undo,
                self@.skin == m0.skin,
                self@.history.len() < m0.history.len() ==> self@.board.selected is None
                    && self@.board.acts.len() == 0,
                self@.history.len() == m0.history.len() ==> self@.board == m0.board,
                m0.board.acts.len() == 0,
            decreases self.history.len(),
        {
            let ghost h = self@.history;
            let ghost d = self@.board.depots;
            let rec = self.history.pop().unwrap();
            proof {
                lemma_replay_last(deal_layout(m0.deal), h);
                assert(h.drop_last() == self@.history);
                let dprev = replay(deal_layout(m0.deal), h.drop_last())->0;
                lemma_layout_facts(m0.deal);
                lemma_replay_facts(deal_layout(m0.deal), h.drop_last());
                lemma_move_inverse(dprev, rec.pos1, rec.pos2);
                assert(self@.history =~= m0.history.subrange(0, self@.history.len() as int));
            }
            self.board.do_move(rec.pos2, rec.pos1);
            self.board.advance_actions();
            proof {
                assert(self@.board.acts =~= Seq::<crate::board::MoveAct>::empty());
            }
        }
        proof {
            let m1 = undo_m(m0).0;
            if looped {
                assert(self@.history =~= m0.history.subrange(0, target_len as int));
                assert(self@.board.depots == replayed(deal_layout(m0.deal), self@.history));
                assert(self@.board.acts =~= m1.board.acts);
                assert(self@.board =~= m1.board);
                assert(self@ == m1);
            } else {
                assert(self@ == m1);
            }
            lemma_undo_wf(m0);
        }
        true
    }

    /// The end of the animations with key `key`: unless the key is stale, the key
    /// advances and the animations end; a won game counts once, otherwise the
    /// automatic moves follow. The flag says whether the state is to be stored.
    pub fn advance_animations(&mut self, key: AnimationKey) -> (save: bool)
        requires
            old(self)@.well_shaped(),
            key == old(self)@.animation_key && is_won_depots(old(self)@.board.depots)
                && !old(self)@.already_won ==> old(self)@.num_wins < i32::MAX,
        ensures
            (final(self)@, save) == advance_animations_m(old(self)@, key),
            final(self)@.well_shaped(),
            old(self)@.wf() ==> final(self)@.wf(),
    {
        proof {
            lemma_advance_shape(old(self)@, key);
            if old(self)@.wf() {
                lemma_advance_wf(old(self)@, key);
            }
        }
        if key != self.animation_key {
            return false;
        }
        let ghost m0 = self@;
        self.animation_key = self.animation_key.wrapping_add(1);
        self.board.advance_actions();
        proof {
            assert(self@.board.depots == m0.board.depots);
            assert(self@.history == m0.history);
            assert(self@.undo_stack == m0.undo_stack);
            assert(self@.well_shaped());
        }
        if self.is_won() {
            if !self.already_won {
                self.num_wins += 1;
                self.already_won = true;
            }
        } else {
            self.check_auto_moves();
        }
        !self.is_busy()
    }

    /// Whether animations are pending.
    pub fn is_busy(&self) -> (b: bool)
        ensures
            b == is_busy_m(self@),
    {
        self.is_acting()
    }

    /// Whether animations are pending.
    pub fn is_acting(&self) -> (b: bool)
        ensures
            b == is_busy_m(self@),
    {
        !self.board.animation_acts.is_empty()
    }

    /// Whether undo is allowed and there is a move to undo.
    pub fn undo_possible(&self) -> (b: bool)
        ensures
            b == undo_possible_m(self@),
    {
        self.allow_undo && !self.undo_stack.is_empty()
    }

    /// Whether `front` may lie on `back` in a stack.
    pub fn can_stack(&self, back: Card, front: Card) -> (b: bool)
        ensures
            b == can_stack_cards(back, front),
    {
        if back.is_animal() {
            front.is_animal() && back.suit == front.suit
        } else {
            front.is_hunter() && back.suit.color() != front.suit.color() && front.rank + 1 == back.rank
        }
    }

    /// Whether the cards form a stack.
    fn is_stack(&self, slice: &[Card]) -> (b: bool)
        ensures
            b == is_stack_seq(slice@),
    {
        let n = slice.len();
        if n < 2 {
            return true;
        }
        let mut i: usize = 0;
        while i + 1 < n
            invariant
                n == slice@.len(),
                n >= 2,
                i + 1 <= n,
                forall|j: int| 0 <= j < i ==> #[trigger] can_stack_cards(slice@[j], slice@[j + 1]),
            decreases n - i,
        {
            if !self.can_stack(slice[i], slice[i + 1]) {
                return false;
            }
            i = i + 1;
        }
        true
    }

    /// Whether the game is won: four full hidden zones and four complete hunter stacks.
    pub fn is_won(&self) -> (b: bool)
        requires
            self@.board.depots.len() == NUM_DEPOTS,
        ensures
            b == is_won_depots(self@.board.depots),
    {
        let ghost d = self@.board.depots;
        let mut shadows: usize = 0;
        let r = DepotRole::Shadow.range();
        let mut s = r.start;
        while s < r.end
            invariant
                r.start == NUM_TABLEAUS,
                r.end == NUM_TABLEAUS + NUM_SHADOWS,
                NUM_TABLEAUS <= s <= r.end,
                d == self@.board.depots,
                d.len() == NUM_DEPOTS,
                shadows == count_full_shadows(d, s - NUM_TABLEAUS),
                shadows <= s - NUM_TABLEAUS,
            decreases r.end - s,
        {
            assert(self.board.depots@[s as int]@ == d[s as int]);
            if self.board.depots[s].len() == ANIMAL_COPIES {
                shadows = shadows + 1;
            }
            s = s + 1;
        }
        if shadows != NUM_SUITS {
            return false;
        }
        let mut done: usize = 0;
        let r2 = DepotRole::Tableau.range();
        let mut t = r2.start;
        while t < r2.end
            invariant
                r2.start == 0,
                r2.end == NUM_TABLEAUS,
                t <= r2.end,
                d == self@.board.depots,
                d.len() == NUM_DEPOTS,
                done == count_done_tableaus(d, t as int),
                done <= t,
            decreases r2.end - t,
        {
            let depot = &self.board.depots[t];
            assert(depot@ == d[t as int]);
            if depot.len() == NUM_HUNTER_RANKS && self.is_stack(depot.as_slice()) {
                done = done + 1;
            }
            t = t + 1;
        }
        done == NUM_SUITS
    }

    /// Whether the cards from `pos` to the top of its depot may be selected.
    pub fn can_select(&self, pos: BoardPos) -> (b: bool)
        requires
            self@.board.depots.len() == NUM_DEPOTS,
            pos.depot_index < NUM_DEPOTS,
        ensures
            b == can_select_at(self@.board.depots, pos),
    {
        let depot = pos.depot_index;
        let ord = pos.card_index;
        let cards = &self.board.depots[depot];
        assert(cards@ == self@.board.depots[depot as int]);
        if ord >= cards.len() {
            return false;
        }
        let slice = vstd::slice::slice_subrange(cards.as_slice(), ord, cards.len());
        let role = match DepotRole::role(depot) {
            Some(r) => r,
            None => return false,
        };
        match role {
            DepotRole::Tableau => self.is_stack(slice),
            DepotRole::Shadow => false,
            DepotRole::FreeCell => slice.len() <= 1,
        }
    }

    /// Whether the cards from `pos1` may be moved on top of the depot of `pos2`.
    pub fn can_move(&self, pos1: BoardPos, pos2: BoardPos) -> (b: bool)
        requires
            self@.board.depots.len() == NUM_DEPOTS,
            pos1.depot_index != pos2.depot_index ==> {
                &&& pos1.depot_index < NUM_DEPOTS
                &&& pos2.depot_index < NUM_DEPOTS
                &&& pos1.card_index <= self@.board.depots[pos1.depot_index as int].len()
                &&& pos2.card_index == self@.board.depots[pos2.depot_index as int].len()
                    ==> pos1.card_index < self@.board.depots[pos1.depot_index as int].len()
            },
        ensures
            b == can_move_to(self@.board.depots, pos1, pos2),
    {
        if pos1.depot_index == pos2.depot_index {
            return false;
        }
        let ghost d = self@.board.depots;
        let depot1 = &self.board.depots[pos1.depot_index];
        let depot2 = &self.board.depots[pos2.depot_index];
        assert(depot1@ == d[pos1.depot_index as int]);
        assert(depot2@ == d[pos2.depot_index as int]);
        let num_moved = depot1.len() - pos1.card_index;
        if pos2.card_index != depot2.len() {
            return false;
        }
        let card = depot1[pos1.card_index];
        let (role, ix) = match DepotRole::role_and_subindex(pos2.depot_index) {
            Some(p) => p,
            None => return false,
        };
        match role {
            DepotRole::Tableau => {
                let shadow = &self.board.depots[DepotRole::Shadow.id(ix)];
                assert(shadow@ == d[NUM_TABLEAUS + pos2.depot_index]);
                shadow.is_empty() && (depot2.len() == 0 || self.can_stack(
                    depot2[depot2.len() - 1],
                    card,
                ))
            },
            DepotRole::Shadow => false,
            DepotRole::FreeCell => { depot2.is_empty() && num_moved == 1 },
        }
    }

    /// The settings as they stand.
    pub fn new_settings_state(&self) -> (s: SettingsState)
        ensures
            s == (SettingsState { allow_undo: self.allow_undo, skin: self.skin }),
    {
        SettingsState { allow_undo: self.allow_undo, skin: self.skin }
    }

    /// Takes over the settings. The state is then to be stored.
    pub fn apply_settings(&mut self, settings: &SettingsState)
        ensures
            final(self)@ == apply_settings_m(old(self)@, *settings),
            old(self)@.wf() ==> final(self)@.wf(),
    {
        self.allow_undo = settings.allow_undo;
        self.skin = settings.skin;
    }

    /// Moves the cards from `pos1` on top of the depot of `pos2` and records the move.
    fn do_move_raw(&mut self, pos1: BoardPos, pos2: BoardPos)
        requires
            movable(old(self)@.board.depots, pos1, pos2),
        ensures
            final(self)@ == do_move_raw_m(old(self)@, pos1, pos2),
    {
        self.board.do_move(pos1, pos2);
        self.history.push(ActionRecord { pos1, pos2 });
    }

    /// Moves every complete animal stack that is alone on its tableau row to the
    /// row's hidden zone, unless animations run.
    pub fn check_auto_moves(&mut self)
        requires
            old(self)@.well_shaped(),
        ensures
            final(self)@ == check_auto_moves_m(old(self)@),
            final(self)@.well_shaped(),
            old(self)@.wf() ==> final(self)@.wf(),
    {
        proof {
            lemma_check_auto_shape(old(self)@);
            if old(self)@.wf() {
                lemma_check_auto_wf(old(self)@);
            }
        }
        if self.is_busy() {
            return;
        }
        let n = DepotRole::Tableau.number_of();
        for i in 0..n
            invariant
                n == NUM_TABLEAUS,
                self@.board.depots.len() == NUM_DEPOTS,
                auto_from(self@, i as int) == auto_from(old(self)@, 0),
        {
            let ghost m = self@;
            let t = DepotRole::Tableau.id(i);
            let ready = {
                let cards = &self.board.depots[t];
                assert(cards@ == m.board.depots[t as int]);
                cards.len() == ANIMAL_COPIES && cards[0].is_animal() && self.is_stack(cards.as_slice())
            };
            assert(ready == auto_ready(m.board.depots, i as int));
            if ready {
                let src = BoardPos::new(t, 0);
                let dest = self.board.top_pos(DepotRole::Shadow.id(i));
                self.do_move_raw(src, dest);
            }
            assert(self@ == auto_step(m, i as int));
        }
    }

    /// A click at `pos`: selects, unselects, or moves the selected cards above the
    /// clicked card when the rules allow it.
    pub fn onclick(&mut self, pos: BoardPos)
        requires
            old(self)@.well_shaped(),
            !(is_busy_m(old(self)@) || is_won_depots(old(self)@.board.depots)) ==> pos.depot_index
                < NUM_DEPOTS,
        ensures
            final(self)@ == onclick_m(old(self)@, pos),
            final(self)@.well_shaped(),
            old(self)@.wf() ==> final(self)@.wf(),
    {
        proof {
            lemma_onclick_shape(old(self)@, pos);
            if old(self)@.wf() {
                lemma_onclick_wf(old(self)@, pos);
            }
        }
        if self.is_busy() {
            return;
        }
        if self.is_won() {
            return;
        }
        let ghost m = self@;
        if let Some(src) = self.board.selected {
            if pos == src {
                self.board.selected = None;
                return;
            }
            if src.depot_index == pos.depot_index && self.can_select(pos) {
                self.board.selected = Some(pos);
                return;
            }
            let dest = BoardPos::new(pos.depot_index, pos.card_index.wrapping_add(1));
            assert(dest == above(pos));
            if !self.can_move(src, dest) {
                return;
            }
            self.undo_stack.push(self.history.len());
            assert(self@.undo_stack =~= m.undo_stack.push(m.history.len()));
            self.do_move_raw(src, dest);
        } else {
            if self.can_select(pos) {
                self.board.selected = Some(pos);
            }
        }
    }

    /// A double click at `pos`: the selectable cards there go to the free cell when
    /// the rules allow it.
    pub fn ondoubleclick(&mut self, pos: BoardPos)
        requires
            old(self)@.well_shaped(),
            !(is_busy_m(old(self)@) || is_won_depots(old(self)@.board.depots)) ==> pos.depot_index
                < NUM_DEPOTS,
        ensures
            final(self)@ == ondoubleclick_m(old(self)@, pos),
            final(self)@.well_shaped(),
            old(self)@.wf() ==> final(self)@.wf(),
    {
        proof {
            lemma_ondoubleclick_shape(old(self)@, pos);
            if old(self)@.wf() {
                lemma_ondoubleclick_wf(old(self)@, pos);
            }
        }
        if self.is_busy() {
            return;
        }
        if self.is_won() {
            return;
        }
        if !self.can_select(pos) {
            return;
        }
        let ghost m = self@;
        let dest = DepotRole::FreeCell.id(0);
        let dest = BoardPos::new(dest, self.board.depots[dest].len());
        assert(dest == freecell_top(m));
        if self.can_move(pos, dest) {
            self.undo_stack.push(self.history.len());
            assert(self@.undo_stack =~= m.undo_stack.push(m.history.len()));
            self.do_move_raw(pos, dest);
        }
    }
}

} // verus!
