use vstd::prelude::*;

use vstd::multiset::Multiset;

use crate::board::{
    empty_depots, moved_cards, CARDS_PER_TABLEAU,
    board_after_move, dealt_board, deal_layout, depot_role, move_depots, movable, BoardModel,
    BoardPos, DepotRole, MoveAct, NUM_DEPOTS, NUM_SHADOWS, NUM_TABLEAUS,
};
use crate::card::{
    is_animal_card, suit_color, Card, ANIMAL_COPIES, DECK_SIZE, NUM_HUNTER_RANKS, NUM_SUITS,
};
use crate::game::{ActionRecord, ScreenState, SettingsState, Skin};

verus! {

/// The whole state of a game, as plain values.
#[verifier::ext_equal]
pub struct GameModel {
    pub board: BoardModel,
    pub deal: Seq<Card>,
    pub animation_key: u16,
    pub history: Seq<ActionRecord>,
    pub undo_stack: Seq<nat>,
    pub already_won: bool,
    pub num_wins: i32,
    pub screen_state: ScreenState,
    pub allow_undo: bool,
    pub skin: Skin,
}

/// Whether `front` may lie on `back` in a stack: animals of one kind on each other;
/// a hunter on a hunter of the other colour and of the next higher rank.
pub open spec fn can_stack_cards(back: Card, front: Card) -> bool {
    if is_animal_card(back) {
        is_animal_card(front) && back.suit == front.suit
    } else {
        !is_animal_card(front) && suit_color(back.suit) != suit_color(front.suit) && front.rank + 1
            == back.rank
    }
}

/// Whether each card of a sequence may lie on the one before it.
pub open spec fn is_stack_seq(s: Seq<Card>) -> bool {
    forall|i: int| 0 <= i < s.len() - 1 ==> #[trigger] can_stack_cards(s[i], s[i + 1])
}

/// Whether hidden zone `i` holds a complete set of animals.
pub open spec fn shadow_full(d: Seq<Seq<Card>>, i: int) -> bool {
    d[NUM_TABLEAUS + i].len() == ANIMAL_COPIES
}

/// Whether tableau row `i` holds a complete hunter stack.
pub open spec fn tableau_done(d: Seq<Seq<Card>>, i: int) -> bool {
    d[i].len() == NUM_HUNTER_RANKS && is_stack_seq(d[i])
}

/// The number of full hidden zones among the first `n`.
pub open spec fn count_full_shadows(d: Seq<Seq<Card>>, n: int) -> nat
    decreases n,
{
    if n <= 0 {
        0
    } else {
        count_full_shadows(d, n - 1) + if shadow_full(d, n - 1) { 1nat } else { 0nat }
    }
}

/// The number of complete hunter stacks among the first `n` tableau rows.
pub open spec fn count_done_tableaus(d: Seq<Seq<Card>>, n: int) -> nat
    decreases n,
{
    if n <= 0 {
        0
    } else {
        count_done_tableaus(d, n - 1) + if tableau_done(d, n - 1) { 1nat } else { 0nat }
    }
}

/// The game is won: as many full hidden zones and as many complete hunter stacks
/// as there are suits.
pub open spec fn is_won_depots(d: Seq<Seq<Card>>) -> bool {
    count_full_shadows(d, NUM_SHADOWS as int) == NUM_SUITS && count_done_tableaus(
        d,
        NUM_TABLEAUS as int,
    ) == NUM_SUITS
}

/// Whether the cards from `pos` to the top of its depot may be picked up: a stack on
/// a tableau row, a single card in the free cell, nothing in a hidden zone.
pub open spec fn can_select_at(d: Seq<Seq<Card>>, pos: BoardPos) -> bool {
    let depot = d[pos.depot_index as int];
    &&& pos.card_index < depot.len()
    &&& match depot_role(pos.depot_index as int) {
        Some(DepotRole::Tableau) => is_stack_seq(depot.subrange(pos.card_index as int, depot.len() as int)),
        Some(DepotRole::Shadow) => false,
        Some(DepotRole::FreeCell) => depot.len() - pos.card_index <= 1,
        None => false,
    }
}

/// Whether the cards from `from` may be put on top of the depot of `to`: onto a tableau
/// row whose hidden zone is empty, if the row is empty or its top card takes the moved
/// card; onto the empty free cell, a single card; never onto a hidden zone.
pub open spec fn can_move_to(d: Seq<Seq<Card>>, from: BoardPos, to: BoardPos) -> bool {
    if from.depot_index == to.depot_index {
        false
    } else if to.card_index != d[to.depot_index as int].len() {
        false
    } else {
        let card = d[from.depot_index as int][from.card_index as int];
        let dest = d[to.depot_index as int];
        match depot_role(to.depot_index as int) {
            Some(DepotRole::Tableau) => d[NUM_TABLEAUS + to.depot_index].len() == 0 && (dest.len()
                == 0 || can_stack_cards(dest.last(), card)),
            Some(DepotRole::Shadow) => false,
            Some(DepotRole::FreeCell) => dest.len() == 0 && d[from.depot_index as int].len()
                - from.card_index == 1,
            None => false,
        }
    }
}

/// The index of the free cell.
pub open spec fn freecell_index() -> int {
    (NUM_TABLEAUS + NUM_SHADOWS) as int
}

/// The free cell holds at most one card.
pub open spec fn freecell_ok(d: Seq<Seq<Card>>) -> bool {
    d[freecell_index()].len() <= 1
}

/// A recorded move takes cards of the board and puts them on top of another depot,
/// and leaves at most one card in the free cell.
pub open spec fn recorded_move(d: Seq<Seq<Card>>, r: ActionRecord) -> bool {
    &&& movable(d, r.pos1, r.pos2)
    &&& r.pos2.card_index == d[r.pos2.depot_index as int].len()
    &&& freecell_ok(move_depots(d, r.pos1, r.pos2))
}

/// The depots after the moves of a history, starting from `start`; `None` if a move
/// of the history is not a recorded move on the depots it was made on.
pub open spec fn replay(start: Seq<Seq<Card>>, h: Seq<ActionRecord>) -> Option<Seq<Seq<Card>>>
    decreases h.len(),
{
    if h.len() == 0 {
        Some(start)
    } else {
        match replay(start, h.drop_last()) {
            Some(d) => if recorded_move(d, h.last()) {
                Some(move_depots(d, h.last().pos1, h.last().pos2))
            } else {
                None
            },
            None => None,
        }
    }
}

/// The depots after a history, or the start when the history does not replay.
pub open spec fn replayed(start: Seq<Seq<Card>>, h: Seq<ActionRecord>) -> Seq<Seq<Card>> {
    match replay(start, h) {
        Some(d) => d,
        None => start,
    }
}

impl GameModel {
    /// The board has all depots and a selection lies on a card.
    pub open spec fn well_shaped(self) -> bool {
        &&& self.board.depots.len() == NUM_DEPOTS
        &&& match self.board.selected {
            Some(p) => p.depot_index < NUM_DEPOTS && p.card_index < self.board.depots[p.depot_index as int].len(),
            None => true,
        }
    }

    /// The state's invariant: it is well shaped; the board is what the history makes of
    /// the dealt board, move by move; undo marks are strictly ascending and below the
    /// history length.
    pub open spec fn wf(self) -> bool {
        &&& self.well_shaped()
        &&& replay(deal_layout(self.deal), self.history) == Some(self.board.depots)
        &&& forall|i: int| 0 <= i < self.undo_stack.len() ==> #[trigger] self.undo_stack[i] < self.history.len()
        &&& forall|i: int, j: int|
            0 <= i < j < self.undo_stack.len() ==> #[trigger] self.undo_stack[i] < #[trigger] self.undo_stack[j]
    }
}

/// Animations are pending.
pub open spec fn is_busy_m(m: GameModel) -> bool {
    m.board.acts.len() > 0
}

/// Undo is allowed and there is a move to undo.
pub open spec fn undo_possible_m(m: GameModel) -> bool {
    m.allow_undo && m.undo_stack.len() > 0
}

/// The state with a new selection.
pub open spec fn with_selected(m: GameModel, s: Option<BoardPos>) -> GameModel {
    GameModel { board: BoardModel { selected: s, ..m.board }, ..m }
}

/// The state after a move, recorded in the history.
pub open spec fn do_move_raw_m(m: GameModel, pos1: BoardPos, pos2: BoardPos) -> GameModel {
    GameModel {
        board: board_after_move(m.board, pos1, pos2),
        history: m.history.push(ActionRecord { pos1, pos2 }),
        ..m
    }
}

/// The state after a player's move: an undo mark at the current history length, then the move.
pub open spec fn player_move_m(m: GameModel, pos1: BoardPos, pos2: BoardPos) -> GameModel {
    do_move_raw_m(
        GameModel { undo_stack: m.undo_stack.push(m.history.len()), ..m },
        pos1,
        pos2,
    )
}

/// The place above a clicked card (a click on an empty depot's frame comes with the
/// largest index, which wraps to 0).
pub open spec fn above(pos: BoardPos) -> BoardPos {
    BoardPos {
        depot_index: pos.depot_index,
        card_index: if pos.card_index == usize::MAX { 0 } else { (pos.card_index + 1) as usize },
    }
}

/// A click at `pos`: nothing while animations run or after the win; with a selection,
/// a click on it unselects, a selectable card of the same depot becomes the selection,
/// and otherwise the selection moves above the clicked card if it may; without a
/// selection, a selectable card becomes the selection.
pub open spec fn onclick_m(m: GameModel, pos: BoardPos) -> GameModel {
    if is_busy_m(m) || is_won_depots(m.board.depots) {
        m
    } else {
        match m.board.selected {
            Some(src) => if pos == src {
                with_selected(m, None)
            } else if src.depot_index == pos.depot_index && can_select_at(m.board.depots, pos) {
                with_selected(m, Some(pos))
            } else if can_move_to(m.board.depots, src, above(pos)) {
                player_move_m(m, src, above(pos))
            } else {
                m
            },
            None => if can_select_at(m.board.depots, pos) {
                with_selected(m, Some(pos))
            } else {
                m
            },
        }
    }
}

/// The position on top of the free cell.
pub open spec fn freecell_top(m: GameModel) -> BoardPos {
    BoardPos {
        depot_index: freecell_index() as usize,
        card_index: m.board.depots[freecell_index()].len() as usize,
    }
}

/// A double click at `pos`: a selectable card goes to the free cell if it may.
pub open spec fn ondoubleclick_m(m: GameModel, pos: BoardPos) -> GameModel {
    if is_busy_m(m) || is_won_depots(m.board.depots) || !can_select_at(m.board.depots, pos) {
        m
    } else if can_move_to(m.board.depots, pos, freecell_top(m)) {
        player_move_m(m, pos, freecell_top(m))
    } else {
        m
    }
}

/// Tableau row `i` holds a complete animal stack and nothing else.
pub open spec fn auto_ready(d: Seq<Seq<Card>>, i: int) -> bool {
    &&& d[i].len() == ANIMAL_COPIES
    &&& is_animal_card(d[i][0])
    &&& is_stack_seq(d[i])
}

/// The automatic move of row `i`: its complete animal stack goes to hidden zone `i`.
pub open spec fn auto_step(m: GameModel, i: int) -> GameModel {
    if auto_ready(m.board.depots, i) {
        do_move_raw_m(
            m,
            BoardPos { depot_index: i as usize, card_index: 0 },
            BoardPos {
                depot_index: (NUM_TABLEAUS + i) as usize,
                card_index: m.board.depots[NUM_TABLEAUS + i].len() as usize,
            },
        )
    } else {
        m
    }
}

/// The automatic moves of rows `i` and on, in row order.
pub open spec fn auto_from(m: GameModel, i: int) -> GameModel
    decreases NUM_TABLEAUS - i,
{
    if i >= NUM_TABLEAUS {
        m
    } else {
        auto_from(auto_step(m, i), i + 1)
    }
}

/// Unless animations run, every complete animal stack alone on its row hides.
pub open spec fn check_auto_moves_m(m: GameModel) -> GameModel {
    if is_busy_m(m) {
        m
    } else {
        auto_from(m, 0)
    }
}

/// Undo: unless animations run or undo is not possible, the last undo mark is taken off
/// and the board goes back to what the history up to that mark makes of the deal; the
/// history is cut there. The flag says whether the state is to be stored.
pub open spec fn undo_m(m: GameModel) -> (GameModel, bool) {
    if is_busy_m(m) || !undo_possible_m(m) {
        (m, false)
    } else {
        let target = m.undo_stack.last();
        let m1 = GameModel { undo_stack: m.undo_stack.drop_last(), ..m };
        if m.history.len() > target {
            let h = m.history.subrange(0, target as int);
            (
                GameModel {
                    board: BoardModel {
                        depots: replayed(deal_layout(m.deal), h),
                        selected: None,
                        acts: Seq::empty(),
                    },
                    history: h,
                    ..m1
                },
                true,
            )
        } else {
            (m1, true)
        }
    }
}

/// A fresh deal laid out, history and undo marks empty, then the automatic moves.
pub open spec fn start_deal_m(m: GameModel, deal: Seq<Card>) -> GameModel {
    check_auto_moves_m(
        GameModel {
            board: dealt_board(deal),
            deal,
            history: Seq::empty(),
            undo_stack: Seq::empty(),
            ..m
        },
    )
}

/// A new game on the given deal; it is stored unless animations run.
pub open spec fn new_game_m(m: GameModel, deal: Seq<Card>) -> (GameModel, bool) {
    let m1 = start_deal_m(GameModel { already_won: false, ..m }, deal);
    (m1, !is_busy_m(m1))
}

/// Restart: when there are moves and undo is possible, the same deal from the start;
/// stored unless animations run.
pub open spec fn restart_m(m: GameModel) -> (GameModel, bool) {
    if m.history.len() == 0 || !undo_possible_m(m) {
        (m, false)
    } else {
        let m1 = start_deal_m(m, m.deal);
        (m1, !is_busy_m(m1))
    }
}

/// The end of the animations with the current key: the key advances, the animations
/// end; a won game counts once, otherwise the automatic moves follow. Stored unless
/// animations run; a stale key changes nothing.
pub open spec fn advance_animations_m(m: GameModel, key: u16) -> (GameModel, bool) {
    if key != m.animation_key {
        (m, false)
    } else {
        let m1 = GameModel {
            animation_key: if key == u16::MAX { 0 } else { (key + 1) as u16 },
            board: BoardModel { acts: Seq::empty(), ..m.board },
            ..m
        };
        let m2 = if is_won_depots(m1.board.depots) {
            if !m1.already_won {
                GameModel { num_wins: (m1.num_wins + 1) as i32, already_won: true, ..m1 }
            } else {
                m1
            }
        } else {
            check_auto_moves_m(m1)
        };
        (m2, !is_busy_m(m2))
    }
}

/// The settings taken over.
pub open spec fn apply_settings_m(m: GameModel, s: SettingsState) -> GameModel {
    GameModel { allow_undo: s.allow_undo, skin: s.skin, ..m }
}

/// The state before the first game: nothing dealt, no win, undo allowed.
pub open spec fn initial_model() -> GameModel {
    GameModel {
        board: BoardModel {
            depots: empty_depots(),
            selected: None,
            acts: Seq::<MoveAct>::empty(),
        },
        deal: Seq::empty(),
        animation_key: 0,
        history: Seq::empty(),
        undo_stack: Seq::empty(),
        already_won: false,
        num_wins: 0,
        screen_state: ScreenState::Game,
        allow_undo: true,
        skin: Skin,
    }
}


/// The dealt board has all depots and an empty free cell.
pub proof fn lemma_layout_facts(deal: Seq<Card>)
    ensures
        deal_layout(deal).len() == NUM_DEPOTS,
        deal_layout(deal)[freecell_index()].len() == 0,
        freecell_ok(deal_layout(deal)),
{
}

/// A history that replays keeps the number of depots and at most one card in the free cell.
pub proof fn lemma_replay_facts(start: Seq<Seq<Card>>, h: Seq<ActionRecord>)
    requires
        start.len() == NUM_DEPOTS,
        freecell_ok(start),
        replay(start, h) is Some,
    ensures
        replay(start, h)->0.len() == NUM_DEPOTS,
        freecell_ok(replay(start, h)->0),
    decreases h.len(),
{
    if h.len() > 0 {
        lemma_replay_facts(start, h.drop_last());
    }
}

/// A valid state leaves at most one card in the free cell.
pub proof fn lemma_wf_freecell(m: GameModel)
    requires
        m.wf(),
    ensures
        freecell_ok(m.board.depots),
{
    lemma_layout_facts(m.deal);
    lemma_replay_facts(deal_layout(m.deal), m.history);
}

/// A recorded move keeps the state valid.
pub proof fn lemma_record_wf(m: GameModel, pos1: BoardPos, pos2: BoardPos)
    requires
        m.wf(),
        recorded_move(m.board.depots, ActionRecord { pos1, pos2 }),
    ensures
        do_move_raw_m(m, pos1, pos2).wf(),
{
    let r = ActionRecord { pos1, pos2 };
    let h2 = m.history.push(r);
    assert(h2.drop_last() =~= m.history);
    assert(h2.last() == r);
    let m2 = do_move_raw_m(m, pos1, pos2);
    assert(replay(deal_layout(m.deal), h2) == Some(move_depots(m.board.depots, pos1, pos2)));
    assert forall|i: int| 0 <= i < m2.undo_stack.len() implies #[trigger] m2.undo_stack[i] < m2.history.len() by {
        assert(m.undo_stack[i] < m.history.len());
    }
}

/// A player move, with its undo mark, keeps the state valid.
pub proof fn lemma_player_move_wf(m: GameModel, pos1: BoardPos, pos2: BoardPos)
    requires
        m.wf(),
        recorded_move(m.board.depots, ActionRecord { pos1, pos2 }),
    ensures
        player_move_m(m, pos1, pos2).wf(),
{
    let m2 = player_move_m(m, pos1, pos2);
    lemma_record_wf(m, pos1, pos2);
    assert forall|i: int| 0 <= i < m2.undo_stack.len() implies #[trigger] m2.undo_stack[i] < m2.history.len() by {
        if i < m.undo_stack.len() {
            assert(m.undo_stack[i] < m.history.len());
        }
    }
    assert forall|i: int, j: int| 0 <= i < j < m2.undo_stack.len() implies #[trigger] m2.undo_stack[i] < #[trigger] m2.undo_stack[j] by {
        if j < m.undo_stack.len() {
            assert(m.undo_stack[i] < m.undo_stack[j]);
        } else {
            assert(m.undo_stack[i] < m.history.len());
        }
    }
    let h2 = m2.history;
    assert(h2.drop_last() =~= m.history);
}

/// A move the rules allow is a recorded move.
pub proof fn lemma_can_move_recorded(d: Seq<Seq<Card>>, pos1: BoardPos, pos2: BoardPos)
    requires
        d.len() == NUM_DEPOTS,
        freecell_ok(d),
        pos1.depot_index < NUM_DEPOTS,
        pos2.depot_index < NUM_DEPOTS,
        pos1.card_index < d[pos1.depot_index as int].len(),
        can_move_to(d, pos1, pos2),
    ensures
        recorded_move(d, ActionRecord { pos1, pos2 }),
{
    let d2 = move_depots(d, pos1, pos2);
    let f = freecell_index();
    if pos2.depot_index == f {
        assert(d2[f].len() == d[f].len() + 1);
    } else if pos1.depot_index == f {
        assert(d2[f].len() <= d[f].len());
    } else {
        assert(d2[f] == d[f]);
    }
}

/// Moving the cards back restores the depots.
pub proof fn lemma_move_inverse(d: Seq<Seq<Card>>, pos1: BoardPos, pos2: BoardPos)
    requires
        movable(d, pos1, pos2),
        pos2.card_index == d[pos2.depot_index as int].len(),
    ensures
        movable(move_depots(d, pos1, pos2), pos2, pos1),
        move_depots(move_depots(d, pos1, pos2), pos2, pos1) == d,
{
    let d1 = move_depots(d, pos1, pos2);
    let d2 = move_depots(d1, pos2, pos1);
    let a = pos1.depot_index as int;
    let b = pos2.depot_index as int;
    assert(d1[b] == d[b] + d[a].subrange(pos1.card_index as int, d[a].len() as int));
    assert(d2[b] =~= d[b]);
    assert(d2[a] =~= d[a]);
    assert(d2 =~= d);
}


/// A history that replays is made of a shorter one that replays and a last recorded move.
pub proof fn lemma_replay_last(start: Seq<Seq<Card>>, h: Seq<ActionRecord>)
    requires
        h.len() > 0,
        replay(start, h) is Some,
    ensures
        replay(start, h.drop_last()) is Some,
        recorded_move(replay(start, h.drop_last())->0, h.last()),
        replay(start, h)->0 == move_depots(replay(start, h.drop_last())->0, h.last().pos1, h.last().pos2),
{
}


/// The automatic moves change only the board and extend the history.
pub proof fn lemma_auto_from_frame(m: GameModel, i: int)
    ensures
        auto_from(m, i) == (GameModel {
            board: auto_from(m, i).board,
            history: auto_from(m, i).history,
            ..m
        }),
        m.history.len() <= auto_from(m, i).history.len(),
        auto_from(m, i).history.subrange(0, m.history.len() as int) == m.history,
    decreases NUM_TABLEAUS - i,
{
    if i < NUM_TABLEAUS {
        let m1 = auto_step(m, i);
        lemma_auto_from_frame(m1, i + 1);
        assert(m1.history.subrange(0, m.history.len() as int) =~= m.history);
        assert(auto_from(m, i).history.subrange(0, m.history.len() as int) =~= m.history);
    } else {
        assert(m.history.subrange(0, m.history.len() as int) =~= m.history);
    }
}

/// Unless animations run, the automatic moves change only the board and extend the history.
pub proof fn lemma_check_auto_frame(m: GameModel)
    ensures
        check_auto_moves_m(m) == (GameModel {
            board: check_auto_moves_m(m).board,
            history: check_auto_moves_m(m).history,
            ..m
        }),
        m.history.len() <= check_auto_moves_m(m).history.len(),
        check_auto_moves_m(m).history.subrange(0, m.history.len() as int) == m.history,
{
    lemma_auto_from_frame(m, 0);
    assert(m.history.subrange(0, m.history.len() as int) =~= m.history);
}


/// A prefix of a history that replays replays too.
pub proof fn lemma_replay_prefix(start: Seq<Seq<Card>>, h: Seq<ActionRecord>, k: int)
    requires
        replay(start, h) is Some,
        0 <= k <= h.len(),
    ensures
        replay(start, h.subrange(0, k)) is Some,
    decreases h.len(),
{
    if k == h.len() {
        assert(h.subrange(0, k) =~= h);
    } else {
        lemma_replay_prefix(start, h.drop_last(), k);
        assert(h.drop_last().subrange(0, k) =~= h.subrange(0, k));
    }
}

/// The automatic move of a row keeps the state valid.
pub proof fn lemma_auto_step_wf(m: GameModel, i: int)
    requires
        m.wf(),
        0 <= i < NUM_TABLEAUS,
    ensures
        auto_step(m, i).wf(),
{
    if auto_ready(m.board.depots, i) {
        let d = m.board.depots;
        let src = BoardPos { depot_index: i as usize, card_index: 0 };
        let dest = BoardPos {
            depot_index: (NUM_TABLEAUS + i) as usize,
            card_index: d[NUM_TABLEAUS + i].len() as usize,
        };
        lemma_wf_freecell(m);
        lemma_depot_len_bound(m);
        assert(d[NUM_TABLEAUS + i].len() <= DECK_SIZE);
        assert(move_depots(d, src, dest)[freecell_index()] == d[freecell_index()]);
        assert(recorded_move(d, ActionRecord { pos1: src, pos2: dest }));
        lemma_record_wf(m, src, dest);
    }
}

/// The automatic moves keep the state valid.
pub proof fn lemma_auto_from_wf(m: GameModel, i: int)
    requires
        m.wf(),
        0 <= i,
    ensures
        auto_from(m, i).wf(),
    decreases NUM_TABLEAUS - i,
{
    if i < NUM_TABLEAUS {
        lemma_auto_step_wf(m, i);
        lemma_auto_from_wf(auto_step(m, i), i + 1);
    }
}

/// Looking for automatic moves keeps the state valid.
pub proof fn lemma_check_auto_wf(m: GameModel)
    requires
        m.wf(),
    ensures
        check_auto_moves_m(m).wf(),
{
    lemma_auto_from_wf(m, 0);
}

/// A click keeps the state valid.
pub proof fn lemma_onclick_wf(m: GameModel, pos: BoardPos)
    requires
        m.wf(),
        !(is_busy_m(m) || is_won_depots(m.board.depots)) ==> pos.depot_index < NUM_DEPOTS,
    ensures
        onclick_m(m, pos).wf(),
{
    if !(is_busy_m(m) || is_won_depots(m.board.depots)) {
        match m.board.selected {
            Some(src) => {
                if pos != src && !(src.depot_index == pos.depot_index && can_select_at(m.board.depots, pos))
                    && can_move_to(m.board.depots, src, above(pos)) {
                    lemma_wf_freecell(m);
                    lemma_can_move_recorded(m.board.depots, src, above(pos));
                    lemma_player_move_wf(m, src, above(pos));
                }
            },
            None => {},
        }
    }
}

/// A double click keeps the state valid.
pub proof fn lemma_ondoubleclick_wf(m: GameModel, pos: BoardPos)
    requires
        m.wf(),
        !(is_busy_m(m) || is_won_depots(m.board.depots)) ==> pos.depot_index < NUM_DEPOTS,
    ensures
        ondoubleclick_m(m, pos).wf(),
{
    if !(is_busy_m(m) || is_won_depots(m.board.depots) || !can_select_at(m.board.depots, pos))
        && can_move_to(m.board.depots, pos, freecell_top(m)) {
        lemma_wf_freecell(m);
        lemma_can_move_recorded(m.board.depots, pos, freecell_top(m));
        lemma_player_move_wf(m, pos, freecell_top(m));
    }
}

/// Undo keeps the state valid.
pub proof fn lemma_undo_wf(m: GameModel)
    requires
        m.wf(),
    ensures
        undo_m(m).0.wf(),
{
    if !(is_busy_m(m) || !undo_possible_m(m)) {
        let m2 = undo_m(m).0;
        let target = m.undo_stack.last();
        assert(target <= m.history.len());
        if m.history.len() > target {
            let h = m.history.subrange(0, target as int);
            lemma_replay_prefix(deal_layout(m.deal), m.history, target as int);
            lemma_layout_facts(m.deal);
            lemma_replay_facts(deal_layout(m.deal), h);
        }
        assert forall|i: int| 0 <= i < m2.undo_stack.len() implies #[trigger] m2.undo_stack[i] < m2.history.len() by {
            assert(m.undo_stack[i] < m.undo_stack[m.undo_stack.len() - 1]);
        }
        assert forall|i: int, j: int| 0 <= i < j < m2.undo_stack.len() implies #[trigger] m2.undo_stack[i] < #[trigger] m2.undo_stack[j] by {
            assert(m.undo_stack[i] < m.undo_stack[j]);
        }
    }
}

/// A fresh deal, whatever the state before, is a valid state.
pub proof fn lemma_start_deal_wf(m: GameModel, deal: Seq<Card>)
    ensures
        start_deal_m(m, deal).wf(),
{
    lemma_layout_facts(deal);
    let m1 = GameModel {
        board: dealt_board(deal),
        deal,
        history: Seq::empty(),
        undo_stack: Seq::empty(),
        ..m
    };
    assert(m1.wf());
    lemma_check_auto_wf(m1);
}

/// A new game, whatever the state before, is a valid state.
pub proof fn lemma_new_game_wf(m: GameModel, deal: Seq<Card>)
    ensures
        new_game_m(m, deal).0.wf(),
{
    lemma_start_deal_wf(GameModel { already_won: false, ..m }, deal);
}

/// Restart keeps the state valid.
pub proof fn lemma_restart_wf(m: GameModel)
    requires
        m.wf(),
    ensures
        restart_m(m).0.wf(),
{
    lemma_start_deal_wf(m, m.deal);
}

/// The end of an animation round keeps the state valid.
pub proof fn lemma_advance_wf(m: GameModel, key: u16)
    requires
        m.wf(),
    ensures
        advance_animations_m(m, key).0.wf(),
{
    if key == m.animation_key {
        let m1 = GameModel {
            animation_key: if key == u16::MAX { 0 } else { (key + 1) as u16 },
            board: BoardModel { acts: Seq::empty(), ..m.board },
            ..m
        };
        assert(m1.wf());
        lemma_check_auto_wf(m1);
    }
}

/// Taking over settings keeps the state valid.
pub proof fn lemma_apply_settings_wf(m: GameModel, s: SettingsState)
    requires
        m.wf(),
    ensures
        apply_settings_m(m, s).wf(),
{
}


/// The automatic moves keep the state well shaped.
pub proof fn lemma_auto_from_shape(m: GameModel, i: int)
    requires
        m.well_shaped(),
        0 <= i,
    ensures
        auto_from(m, i).well_shaped(),
    decreases NUM_TABLEAUS - i,
{
    if i < NUM_TABLEAUS {
        let m1 = auto_step(m, i);
        assert(m1.board.depots.len() == NUM_DEPOTS);
        assert(m1.well_shaped());
        lemma_auto_from_shape(auto_step(m, i), i + 1);
    }
}

/// Looking for automatic moves keeps the state well shaped.
pub proof fn lemma_check_auto_shape(m: GameModel)
    requires
        m.well_shaped(),
    ensures
        check_auto_moves_m(m).well_shaped(),
{
    lemma_auto_from_shape(m, 0);
}

/// A click keeps the state well shaped.
pub proof fn lemma_onclick_shape(m: GameModel, pos: BoardPos)
    requires
        m.well_shaped(),
        !(is_busy_m(m) || is_won_depots(m.board.depots)) ==> pos.depot_index < NUM_DEPOTS,
    ensures
        onclick_m(m, pos).well_shaped(),
{
}

/// A double click keeps the state well shaped.
pub proof fn lemma_ondoubleclick_shape(m: GameModel, pos: BoardPos)
    requires
        m.well_shaped(),
        !(is_busy_m(m) || is_won_depots(m.board.depots)) ==> pos.depot_index < NUM_DEPOTS,
    ensures
        ondoubleclick_m(m, pos).well_shaped(),
{
}

/// A fresh deal is well shaped, whatever the state before.
pub proof fn lemma_start_deal_shape(m: GameModel, deal: Seq<Card>)
    ensures
        start_deal_m(m, deal).well_shaped(),
{
    lemma_layout_facts(deal);
    lemma_check_auto_shape(
        GameModel {
            board: dealt_board(deal),
            deal,
            history: Seq::empty(),
            undo_stack: Seq::empty(),
            ..m
        },
    );
}

/// Restart keeps the state well shaped.
pub proof fn lemma_restart_shape(m: GameModel)
    requires
        m.well_shaped(),
    ensures
        restart_m(m).0.well_shaped(),
{
    lemma_start_deal_shape(m, m.deal);
}

/// The end of an animation round keeps the state well shaped.
pub proof fn lemma_advance_shape(m: GameModel, key: u16)
    requires
        m.well_shaped(),
    ensures
        advance_animations_m(m, key).0.well_shaped(),
{
    if key == m.animation_key {
        let m1 = GameModel {
            animation_key: if key == u16::MAX { 0 } else { (key + 1) as u16 },
            board: BoardModel { acts: Seq::empty(), ..m.board },
            ..m
        };
        lemma_check_auto_shape(m1);
    }
}

/// All cards on the board, each as often as it lies there.
pub open spec fn board_cards(d: Seq<Seq<Card>>) -> Multiset<Card>
    decreases d.len(),
{
    if d.len() == 0 {
        Multiset::empty()
    } else {
        board_cards(d.drop_last()).add(d.last().to_multiset())
    }
}

/// Replacing one depot trades its cards for the new ones.
pub proof fn lemma_board_cards_update(d: Seq<Seq<Card>>, i: int, s: Seq<Card>)
    requires
        0 <= i < d.len(),
    ensures
        board_cards(d.update(i, s)).add(d[i].to_multiset()) =~= board_cards(d).add(s.to_multiset()),
    decreases d.len(),
{
    broadcast use vstd::multiset::group_multiset_axioms;

    let d2 = d.update(i, s);
    assert(d2.len() == d.len());
    assert(board_cards(d2) == board_cards(d2.drop_last()).add(d2.last().to_multiset()));
    assert(board_cards(d) == board_cards(d.drop_last()).add(d.last().to_multiset()));
    if i == d.len() - 1 {
        assert(d2.drop_last() =~= d.drop_last());
        assert(d2.last() == s);
    } else {
        let dl = d.drop_last();
        lemma_board_cards_update(dl, i, s);
        assert(d2.drop_last() =~= dl.update(i, s));
        assert(d2.last() == d.last());
        assert(dl[i] == d[i]);
        assert forall|v: Card| #[trigger] board_cards(d2).add(d[i].to_multiset()).count(v)
            == board_cards(d).add(s.to_multiset()).count(v) by {
            assert(board_cards(dl.update(i, s)).add(dl[i].to_multiset()).count(v)
                == board_cards(dl).add(s.to_multiset()).count(v));
        }
    }
}

/// A move keeps the cards on the board.
pub proof fn lemma_move_keeps_cards(d: Seq<Seq<Card>>, pos1: BoardPos, pos2: BoardPos)
    requires
        movable(d, pos1, pos2),
    ensures
        board_cards(move_depots(d, pos1, pos2)) =~= board_cards(d),
{
    broadcast use vstd::multiset::group_multiset_axioms;

    let a = pos1.depot_index as int;
    let b = pos2.depot_index as int;
    let x = d[a].subrange(0, pos1.card_index as int);
    let mv = moved_cards(d, pos1);
    assert(d[a] =~= x + mv);
    vstd::seq_lib::lemma_multiset_commutative(x, mv);
    let d1 = d.update(a, x);
    lemma_board_cards_update(d, a, x);
    assert(board_cards(d1).add(d[a].to_multiset()) =~= board_cards(d).add(x.to_multiset()));
    assert(d[a].to_multiset() =~= x.to_multiset().add(mv.to_multiset()));
    assert forall|v: Card| #[trigger] board_cards(d1).add(mv.to_multiset()).count(v) == board_cards(d).count(v) by {
        assert(board_cards(d1).add(d[a].to_multiset()).count(v) == board_cards(d).add(x.to_multiset()).count(v));
    }
    assert(board_cards(d1).add(mv.to_multiset()) =~= board_cards(d));
    let y = d[b] + mv;
    vstd::seq_lib::lemma_multiset_commutative(d[b], mv);
    lemma_board_cards_update(d1, b, y);
    assert(d1[b] == d[b]);
    assert(move_depots(d, pos1, pos2) == d1.update(b, y));
    let d2 = d1.update(b, y);
    assert(board_cards(d2).add(d[b].to_multiset()) =~= board_cards(d1).add(y.to_multiset()));
    assert(y.to_multiset() =~= d[b].to_multiset().add(mv.to_multiset()));
    assert forall|v: Card| #[trigger] board_cards(d2).count(v) == board_cards(d).count(v) by {
        assert(board_cards(d2).add(d[b].to_multiset()).count(v) == board_cards(d1).add(y.to_multiset()).count(v));
        assert(board_cards(d1).add(mv.to_multiset()).count(v) == board_cards(d).count(v));
    }
}

/// A history that replays keeps the cards of its start.
pub proof fn lemma_replay_keeps_cards(start: Seq<Seq<Card>>, h: Seq<ActionRecord>)
    requires
        replay(start, h) is Some,
    ensures
        board_cards(replay(start, h)->0) == board_cards(start),
    decreases h.len(),
{
    if h.len() > 0 {
        lemma_replay_keeps_cards(start, h.drop_last());
        lemma_move_keeps_cards(replay(start, h.drop_last())->0, h.last().pos1, h.last().pos2);
    }
}

/// How many cards of a deal of length `len` the first `k` depots get.
pub open spec fn dealt_count(len: int, k: int) -> int {
    let n = if k <= NUM_TABLEAUS { k * CARDS_PER_TABLEAU } else { NUM_TABLEAUS * CARDS_PER_TABLEAU };
    if n <= len { n } else { len }
}

/// The first `k` depots of the dealt board hold the first cards of the deal.
pub proof fn lemma_layout_prefix_cards(deal: Seq<Card>, k: int)
    requires
        0 <= k <= NUM_DEPOTS,
    ensures
        board_cards(deal_layout(deal).subrange(0, k)) =~= deal.subrange(
            0,
            dealt_count(deal.len() as int, k),
        ).to_multiset(),
    decreases k,
{
    broadcast use vstd::multiset::group_multiset_axioms;
    broadcast use vstd::seq_lib::group_to_multiset_ensures;

    let l = deal_layout(deal);
    if k == 0 {
        assert(deal.subrange(0, 0) =~= Seq::<Card>::empty());
        assert(Seq::<Card>::empty().to_multiset() =~= Multiset::empty());
    } else {
        lemma_layout_prefix_cards(deal, k - 1);
        assert(l.subrange(0, k).drop_last() =~= l.subrange(0, k - 1));
        let lo = dealt_count(deal.len() as int, k - 1);
        let hi = dealt_count(deal.len() as int, k);
        assert(l[k - 1] =~= deal.subrange(lo, hi));
        assert(deal.subrange(0, hi) =~= deal.subrange(0, lo) + deal.subrange(lo, hi));
        vstd::seq_lib::lemma_multiset_commutative(deal.subrange(0, lo), deal.subrange(lo, hi));
    }
}

/// The dealt board holds the first `NUM_TABLEAUS * CARDS_PER_TABLEAU` cards of the deal.
pub proof fn lemma_layout_cards(deal: Seq<Card>)
    ensures
        board_cards(deal_layout(deal)) == deal.subrange(0, dealt_count(deal.len() as int, NUM_DEPOTS as int)).to_multiset(),
{
    lemma_layout_prefix_cards(deal, NUM_DEPOTS as int);
    assert(deal_layout(deal).subrange(0, NUM_DEPOTS as int) =~= deal_layout(deal));
}

/// A depot holds no more cards than the whole board.
pub proof fn lemma_depot_within_board(d: Seq<Seq<Card>>, i: int)
    requires
        0 <= i < d.len(),
    ensures
        d[i].len() <= board_cards(d).len(),
    decreases d.len(),
{
    broadcast use vstd::multiset::group_multiset_axioms;
    broadcast use vstd::seq_lib::group_to_multiset_ensures;

    d.last().to_multiset_ensures();
    if i < d.len() - 1 {
        lemma_depot_within_board(d.drop_last(), i);
    }
}

/// In a valid state no depot holds more cards than a deck.
pub proof fn lemma_depot_len_bound(m: GameModel)
    requires
        m.wf(),
    ensures
        forall|i: int| 0 <= i < NUM_DEPOTS ==> #[trigger] m.board.depots[i].len() <= DECK_SIZE,
{
    broadcast use vstd::seq_lib::group_to_multiset_ensures;

    lemma_replay_keeps_cards(deal_layout(m.deal), m.history);
    lemma_layout_cards(m.deal);
    let n = dealt_count(m.deal.len() as int, NUM_DEPOTS as int);
    m.deal.subrange(0, n).to_multiset_ensures();
    assert forall|i: int| 0 <= i < NUM_DEPOTS implies #[trigger] m.board.depots[i].len() <= DECK_SIZE by {
        lemma_depot_within_board(m.board.depots, i);
    }
}

} // verus!
