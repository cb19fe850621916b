use vstd::prelude::*;

use crate::board::{
    deal_layout, BoardPos, NUM_DEPOTS, NUM_SHADOWS, NUM_TABLEAUS,
};
use crate::card::{full_deck, is_animal_card, Card, Suit, DECK_SIZE, RANK_MAX, RANK_MIN};
use crate::rules::{
    advance_animations_m, auto_from, auto_ready, auto_step, board_cards, can_move_to,
    can_select_at, check_auto_moves_m, freecell_index, is_busy_m, is_won_depots,
    lemma_advance_wf, lemma_apply_settings_wf, lemma_check_auto_frame, lemma_check_auto_wf,
    lemma_layout_cards, lemma_layout_facts, lemma_new_game_wf, lemma_onclick_wf,
    lemma_ondoubleclick_wf, lemma_replay_keeps_cards, lemma_restart_wf, lemma_undo_wf, lemma_wf_freecell, new_game_m, onclick_m,
    ondoubleclick_m, restart_m, undo_m, undo_possible_m,
    apply_settings_m, GameModel,
};
use crate::game::SettingsState;

verus! {

/// Cards are neither made nor lost: in a valid state whose deal has a deck's number of
/// cards, the board holds exactly the cards of the deal.
pub proof fn cards_are_conserved(m: GameModel)
    requires
        m.wf(),
        m.deal.len() == DECK_SIZE,
    ensures
        board_cards(m.board.depots) == m.deal.to_multiset(),
{
    lemma_replay_keeps_cards(deal_layout(m.deal), m.history);
    lemma_layout_cards(m.deal);
    assert(m.deal.subrange(0, DECK_SIZE as int) =~= m.deal);
}

/// A new game on a shuffled deck lays out the whole deck, each card as often as the deck
/// has it.
pub proof fn new_game_lays_out_the_deck(m: GameModel, deal: Seq<Card>)
    requires
        deal.to_multiset() == full_deck().to_multiset(),
    ensures
        board_cards(new_game_m(m, deal).0.board.depots) == full_deck().to_multiset(),
{
    broadcast use vstd::seq_lib::group_to_multiset_ensures;

    deal.to_multiset_ensures();
    full_deck().to_multiset_ensures();
    lemma_new_game_wf(m, deal);
    let m0 = GameModel { already_won: false, ..m };
    lemma_layout_facts(deal);
    lemma_check_auto_frame(
        GameModel {
            board: crate::board::dealt_board(deal),
            deal,
            history: Seq::empty(),
            undo_stack: Seq::empty(),
            ..m0
        },
    );
    cards_are_conserved(new_game_m(m, deal).0);
}

/// The deck has 36 cards: every rank from `RANK_MIN` to `RANK_MAX` in every suit, each
/// once; the first 20 are the hunters, the last 16 the animals.
pub proof fn deck_has_every_card_once()
    ensures
        full_deck().len() == DECK_SIZE,
        forall|i: int| 0 <= i < 20 ==> !is_animal_card(#[trigger] full_deck()[i]),
        forall|i: int| 20 <= i < DECK_SIZE ==> is_animal_card(#[trigger] full_deck()[i]),
        forall|i: int, j: int| 0 <= i < j < DECK_SIZE ==> full_deck()[i] != full_deck()[j],
        forall|c: Card| RANK_MIN <= c.rank <= RANK_MAX ==> full_deck().contains(c),
{
    assert forall|i: int, j: int| 0 <= i < j < DECK_SIZE implies full_deck()[i] != full_deck()[j] by {
        if i / 4 == j / 4 {
            assert(i % 4 != j % 4);
        }
    }
    assert forall|c: Card| RANK_MIN <= c.rank <= RANK_MAX implies full_deck().contains(c) by {
        let k: int = match c.suit {
            Suit::Clubs => 0,
            Suit::Diamonds => 1,
            Suit::Hearts => 2,
            Suit::Spades => 3,
        };
        let i = (c.rank - RANK_MIN) * 4 + k;
        assert(i / 4 == c.rank - RANK_MIN);
        assert(i % 4 == k);
        assert(full_deck()[i] == c);
    }
}

/// Undo goes back to its mark: take a valid state, and a later valid state of the same
/// deal whose history extends the first one's and whose last undo mark is the first
/// state's history length, on top of the first state's marks. Undo then restores the
/// first state's board, history and undo marks.
pub proof fn undo_returns_to_mark(m0: GameModel, m2: GameModel)
    requires
        m0.wf(),
        m2.wf(),
        m2.deal == m0.deal,
        m0.history.len() <= m2.history.len(),
        m2.history.subrange(0, m0.history.len() as int) == m0.history,
        m2.undo_stack == m0.undo_stack.push(m0.history.len()),
        m2.allow_undo,
        !is_busy_m(m2),
    ensures
        undo_m(m2).1,
        undo_m(m2).0.board.depots == m0.board.depots,
        undo_m(m2).0.history == m0.history,
        undo_m(m2).0.undo_stack == m0.undo_stack,
{
    assert(m2.undo_stack.last() == m0.history.len());
    assert(m2.undo_stack.drop_last() =~= m0.undo_stack);
    if m2.history.len() == m0.history.len() {
        assert(m2.history =~= m0.history);
    }
}

/// The state after `n` rounds of animations, each ended with the key current at its end.
pub open spec fn advance_rounds(m: GameModel, n: nat) -> GameModel
    decreases n,
{
    if n == 0 {
        m
    } else {
        advance_rounds(advance_animations_m(m, m.animation_key).0, (n - 1) as nat)
    }
}

/// Rounds of animations keep the deal, the undo marks and the settings, keep a valid
/// state valid and only add moves to the end of the history.
pub proof fn rounds_keep_undo_marks(m: GameModel, n: nat)
    ensures
        advance_rounds(m, n).deal == m.deal,
        advance_rounds(m, n).undo_stack == m.undo_stack,
        advance_rounds(m, n).allow_undo == m.allow_undo,
        m.history.len() <= advance_rounds(m, n).history.len(),
        advance_rounds(m, n).history.subrange(0, m.history.len() as int) == m.history,
        m.wf() ==> advance_rounds(m, n).wf(),
    decreases n,
{
    if n == 0 {
        assert(m.history.subrange(0, m.history.len() as int) =~= m.history);
    } else {
        let m1 = advance_animations_m(m, m.animation_key).0;
        advance_keeps_undo_marks(m, m.animation_key);
        if m.wf() {
            lemma_advance_wf(m, m.animation_key);
        }
        rounds_keep_undo_marks(m1, (n - 1) as nat);
        let h2 = advance_rounds(m, n).history;
        assert(h2.subrange(0, m.history.len() as int) =~= h2.subrange(0, m1.history.len() as int).subrange(
            0,
            m.history.len() as int,
        ));
    }
}

/// A click that moves cards, then any number of animation rounds (with the automatic
/// moves they bring): once no animation runs, undo brings back the board, history and
/// undo marks from before the click.
pub proof fn click_then_undo_restores(m0: GameModel, pos: BoardPos, n: nat)
    requires
        m0.wf(),
        m0.allow_undo,
        pos.depot_index < NUM_DEPOTS,
        onclick_m(m0, pos).history.len() > m0.history.len(),
        !is_busy_m(advance_rounds(onclick_m(m0, pos), n)),
    ensures
        undo_m(advance_rounds(onclick_m(m0, pos), n)).1,
        undo_m(advance_rounds(onclick_m(m0, pos), n)).0.board.depots == m0.board.depots,
        undo_m(advance_rounds(onclick_m(m0, pos), n)).0.history == m0.history,
        undo_m(advance_rounds(onclick_m(m0, pos), n)).0.undo_stack == m0.undo_stack,
{
    lemma_onclick_wf(m0, pos);
    player_move_then_undo(m0, onclick_m(m0, pos), n);
}

/// A double click that moves a card to the free cell, then any number of animation
/// rounds: once no animation runs, undo brings back the board, history and undo marks
/// from before the double click.
pub proof fn double_click_then_undo_restores(m0: GameModel, pos: BoardPos, n: nat)
    requires
        m0.wf(),
        m0.allow_undo,
        pos.depot_index < NUM_DEPOTS,
        ondoubleclick_m(m0, pos).history.len() > m0.history.len(),
        !is_busy_m(advance_rounds(ondoubleclick_m(m0, pos), n)),
    ensures
        undo_m(advance_rounds(ondoubleclick_m(m0, pos), n)).1,
        undo_m(advance_rounds(ondoubleclick_m(m0, pos), n)).0.board.depots == m0.board.depots,
        undo_m(advance_rounds(ondoubleclick_m(m0, pos), n)).0.history == m0.history,
        undo_m(advance_rounds(ondoubleclick_m(m0, pos), n)).0.undo_stack == m0.undo_stack,
{
    lemma_ondoubleclick_wf(m0, pos);
    player_move_then_undo(m0, ondoubleclick_m(m0, pos), n);
}

/// The common part of the two laws above: a player move from `m0` to `m1`, then `n`
/// animation rounds, then undo.
proof fn player_move_then_undo(m0: GameModel, m1: GameModel, n: nat)
    requires
        m0.wf(),
        m1.wf(),
        m0.allow_undo,
        m1 == crate::rules::player_move_m(m0, m1.history.last().pos1, m1.history.last().pos2),
        !is_busy_m(advance_rounds(m1, n)),
    ensures
        undo_m(advance_rounds(m1, n)).1,
        undo_m(advance_rounds(m1, n)).0.board.depots == m0.board.depots,
        undo_m(advance_rounds(m1, n)).0.history == m0.history,
        undo_m(advance_rounds(m1, n)).0.undo_stack == m0.undo_stack,
{
    let m2 = advance_rounds(m1, n);
    rounds_keep_undo_marks(m1, n);
    assert(m1.history.subrange(0, m0.history.len() as int) =~= m0.history);
    assert(m2.history.subrange(0, m0.history.len() as int) =~= m1.history.subrange(
        0,
        m0.history.len() as int,
    ));
    undo_returns_to_mark(m0, m2);
}

/// The end of an animation round keeps the deal, the undo marks and the settings, and
/// only adds moves to the end of the history.
pub proof fn advance_keeps_undo_marks(m: GameModel, key: u16)
    ensures
        advance_animations_m(m, key).0.deal == m.deal,
        advance_animations_m(m, key).0.undo_stack == m.undo_stack,
        advance_animations_m(m, key).0.allow_undo == m.allow_undo,
        m.history.len() <= advance_animations_m(m, key).0.history.len(),
        advance_animations_m(m, key).0.history.subrange(0, m.history.len() as int) == m.history,
{
    assert(m.history.subrange(0, m.history.len() as int) =~= m.history);
    if key == m.animation_key {
        let m1 = GameModel {
            animation_key: if key == u16::MAX { 0 } else { (key + 1) as u16 },
            board: crate::board::BoardModel { acts: Seq::empty(), ..m.board },
            ..m
        };
        lemma_check_auto_frame(m1);
    }
}

/// The automatic moves do not look at the win flag and do not change it.
proof fn lemma_auto_from_won_flag(m: GameModel, b: bool, i: int)
    ensures
        auto_from(GameModel { already_won: b, ..m }, i) == (GameModel {
            already_won: b,
            ..auto_from(m, i)
        }),
    decreases NUM_TABLEAUS - i,
{
    if i < NUM_TABLEAUS {
        let mb = GameModel { already_won: b, ..m };
        assert(auto_step(mb, i) == GameModel { already_won: b, ..auto_step(m, i) });
        lemma_auto_from_won_flag(auto_step(m, i), b, i + 1);
    }
}

/// Restart plays the deal from the start: the state is that of a new game on the same
/// deal, except that the win flag stays as it was.
pub proof fn restart_replays_the_deal(m: GameModel)
    requires
        m.history.len() > 0,
        undo_possible_m(m),
    ensures
        restart_m(m).0 == (GameModel { already_won: m.already_won, ..new_game_m(m, m.deal).0 }),
        restart_m(m).1 == new_game_m(m, m.deal).1,
{
    let m1 = GameModel {
        board: crate::board::dealt_board(m.deal),
        deal: m.deal,
        history: Seq::empty(),
        undo_stack: Seq::empty(),
        ..m
    };
    lemma_auto_from_won_flag(m1, false, 0);
    lemma_auto_from_won_flag(GameModel { already_won: false, ..m1 }, m.already_won, 0);
    assert(GameModel { already_won: m.already_won, ..GameModel { already_won: false, ..m1 } } == m1);
}

/// The automatic moves depend only on the board and the history.
proof fn lemma_auto_from_indep(m: GameModel, m2: GameModel, i: int)
    requires
        m.board == m2.board,
        m.history == m2.history,
    ensures
        auto_from(m, i).board == auto_from(m2, i).board,
        auto_from(m, i).history == auto_from(m2, i).history,
    decreases NUM_TABLEAUS - i,
{
    if i < NUM_TABLEAUS {
        lemma_auto_from_indep(auto_step(m, i), auto_step(m2, i), i + 1);
    }
}

/// Restart goes back to the start of the deal: the board and history are those a new
/// game on the same deal began with, whatever came in between; undo is then not
/// possible, so a second restart changes nothing.
pub proof fn restart_returns_to_first_layout(m: GameModel, m0: GameModel)
    requires
        m.history.len() > 0,
        undo_possible_m(m),
    ensures
        restart_m(m).0.board == new_game_m(m0, m.deal).0.board,
        restart_m(m).0.history == new_game_m(m0, m.deal).0.history,
        !undo_possible_m(restart_m(m).0),
        restart_m(restart_m(m).0) == (restart_m(m).0, false),
{
    let m1 = GameModel {
        board: crate::board::dealt_board(m.deal),
        deal: m.deal,
        history: Seq::empty(),
        undo_stack: Seq::empty(),
        ..m
    };
    let m2 = GameModel {
        board: crate::board::dealt_board(m.deal),
        deal: m.deal,
        history: Seq::empty(),
        undo_stack: Seq::empty(),
        ..GameModel { already_won: false, ..m0 }
    };
    lemma_auto_from_indep(m1, m2, 0);
    lemma_check_auto_frame(m1);
}

/// The end of an animation round happens once per key: with the current key the key
/// moves on by one (wrapping from the largest key to 0), so ending the round again with
/// the same key changes nothing.
pub proof fn advance_applies_once(m: GameModel, key: u16)
    requires
        key == m.animation_key,
    ensures
        advance_animations_m(m, key).0.animation_key == if key == u16::MAX { 0 } else { (key + 1) as u16 },
        advance_animations_m(advance_animations_m(m, key).0, key) == (advance_animations_m(m, key).0, false),
{
    let m1 = GameModel {
        animation_key: if key == u16::MAX { 0 } else { (key + 1) as u16 },
        board: crate::board::BoardModel { acts: Seq::empty(), ..m.board },
        ..m
    };
    lemma_check_auto_frame(m1);
}

/// In a valid state the board holds the cards of the dealt board.
proof fn lemma_wf_cards(m: GameModel)
    requires
        m.wf(),
    ensures
        board_cards(m.board.depots) == board_cards(deal_layout(m.deal)),
{
    lemma_replay_keeps_cards(deal_layout(m.deal), m.history);
}

/// No operation makes, loses or copies a card: from a valid state, the cards on the
/// board after a click, a double click, the automatic moves, undo, restart, the end of an
/// animation round or new settings are the cards before it.
pub proof fn operations_keep_the_cards(m: GameModel, pos: BoardPos, key: u16, s: SettingsState)
    requires
        m.wf(),
        pos.depot_index < NUM_DEPOTS,
    ensures
        board_cards(onclick_m(m, pos).board.depots) == board_cards(m.board.depots),
        board_cards(ondoubleclick_m(m, pos).board.depots) == board_cards(m.board.depots),
        board_cards(check_auto_moves_m(m).board.depots) == board_cards(m.board.depots),
        board_cards(undo_m(m).0.board.depots) == board_cards(m.board.depots),
        board_cards(restart_m(m).0.board.depots) == board_cards(m.board.depots),
        board_cards(advance_animations_m(m, key).0.board.depots) == board_cards(m.board.depots),
        board_cards(apply_settings_m(m, s).board.depots) == board_cards(m.board.depots),
{
    operations_keep_the_invariant(m, pos, key, s, m.deal);
    lemma_wf_cards(m);
    lemma_wf_cards(onclick_m(m, pos));
    lemma_wf_cards(ondoubleclick_m(m, pos));
    lemma_check_auto_frame(m);
    lemma_wf_cards(check_auto_moves_m(m));
    lemma_wf_cards(undo_m(m).0);
    let r1 = GameModel {
        board: crate::board::dealt_board(m.deal),
        deal: m.deal,
        history: Seq::empty(),
        undo_stack: Seq::empty(),
        ..m
    };
    lemma_check_auto_frame(r1);
    lemma_wf_cards(restart_m(m).0);
    advance_keeps_undo_marks(m, key);
    lemma_wf_cards(advance_animations_m(m, key).0);
}

/// A won game takes no more input: clicks and double clicks change nothing.
pub proof fn won_game_ignores_input(m: GameModel, pos: BoardPos)
    requires
        is_won_depots(m.board.depots),
    ensures
        onclick_m(m, pos) == m,
        ondoubleclick_m(m, pos) == m,
{
}

/// While animations run, clicks, double clicks, undo and the automatic moves change nothing.
pub proof fn busy_game_ignores_input(m: GameModel, pos: BoardPos)
    requires
        is_busy_m(m),
    ensures
        onclick_m(m, pos) == m,
        ondoubleclick_m(m, pos) == m,
        undo_m(m) == (m, false),
        check_auto_moves_m(m) == m,
{
}

/// The free cell never holds more than one card.
pub proof fn freecell_holds_one_card(m: GameModel)
    requires
        m.wf(),
    ensures
        m.board.depots[freecell_index()].len() <= 1,
{
    lemma_wf_freecell(m);
}

/// Hidden animals are out of play: nothing in a hidden zone can be selected, and no
/// player move puts cards there.
pub proof fn hidden_zones_are_closed(d: Seq<Seq<Card>>, from: BoardPos, pos: BoardPos)
    requires
        NUM_TABLEAUS <= pos.depot_index < NUM_TABLEAUS + NUM_SHADOWS,
    ensures
        !can_select_at(d, pos),
        !can_move_to(d, from, pos),
{
}

/// A tableau row whose hidden zone holds cards takes no more cards.
pub proof fn covered_row_takes_no_cards(d: Seq<Seq<Card>>, from: BoardPos, to: BoardPos)
    requires
        to.depot_index < NUM_TABLEAUS,
        d[NUM_TABLEAUS + to.depot_index].len() > 0,
    ensures
        !can_move_to(d, from, to),
{
}

/// The automatic moves from row `i` on leave no ready row behind, given none before `i`.
proof fn lemma_auto_from_clears(m: GameModel, i: int)
    requires
        m.board.depots.len() == NUM_DEPOTS,
        0 <= i <= NUM_TABLEAUS,
        forall|j: int| 0 <= j < i ==> !#[trigger] auto_ready(m.board.depots, j),
    ensures
        forall|j: int| 0 <= j < NUM_TABLEAUS ==> !#[trigger] auto_ready(auto_from(m, i).board.depots, j),
    decreases NUM_TABLEAUS - i,
{
    if i < NUM_TABLEAUS {
        let m1 = auto_step(m, i);
        let d = m.board.depots;
        let d1 = m1.board.depots;
        assert(d1.len() == NUM_DEPOTS);
        assert forall|j: int| 0 <= j < i + 1 implies !#[trigger] auto_ready(d1, j) by {
            if auto_ready(d, i) {
                if j < i {
                    assert(d1[j] == d[j]);
                    assert(!auto_ready(d, j));
                } else {
                    assert(d1[j].len() == 0);
                }
            } else {
                if j < i {
                    assert(!auto_ready(d, j));
                }
            }
        }
        lemma_auto_from_clears(m1, i + 1);
    }
}

/// Complete animal stacks hide: when no animation runs, after the automatic moves no
/// tableau row holds a complete animal stack and nothing else.
pub proof fn auto_moves_hide_every_stack(m: GameModel)
    requires
        m.board.depots.len() == NUM_DEPOTS,
        !is_busy_m(m),
    ensures
        forall|i: int| 0 <= i < NUM_TABLEAUS ==> !#[trigger] auto_ready(check_auto_moves_m(m).board.depots, i),
{
    lemma_auto_from_clears(m, 0);
}

/// A win counts once: the end of an animation round adds one to the wins exactly when
/// its key is current, the game is won and the win was not counted yet.
pub proof fn win_counts_once(m: GameModel, key: u16)
    requires
        m.num_wins < i32::MAX,
    ensures
        advance_animations_m(m, key).0.num_wins == if key == m.animation_key && is_won_depots(
            m.board.depots,
        ) && !m.already_won {
            m.num_wins + 1
        } else {
            m.num_wins as int
        },
        key == m.animation_key && is_won_depots(m.board.depots) ==> advance_animations_m(
            m,
            key,
        ).0.already_won,
{
    if key == m.animation_key && !is_won_depots(m.board.depots) {
        let m1 = GameModel {
            animation_key: if key == u16::MAX { 0 } else { (key + 1) as u16 },
            board: crate::board::BoardModel { acts: Seq::empty(), ..m.board },
            ..m
        };
        lemma_check_auto_frame(m1);
    }
}

/// Every operation keeps a valid state valid; a new game makes any state valid.
pub proof fn operations_keep_the_invariant(
    m: GameModel,
    pos: BoardPos,
    key: u16,
    s: SettingsState,
    deal: Seq<Card>,
)
    requires
        m.wf(),
        pos.depot_index < NUM_DEPOTS,
    ensures
        onclick_m(m, pos).wf(),
        ondoubleclick_m(m, pos).wf(),
        check_auto_moves_m(m).wf(),
        undo_m(m).0.wf(),
        restart_m(m).0.wf(),
        advance_animations_m(m, key).0.wf(),
        apply_settings_m(m, s).wf(),
        new_game_m(m, deal).0.wf(),
{
    lemma_onclick_wf(m, pos);
    lemma_ondoubleclick_wf(m, pos);
    lemma_check_auto_wf(m);
    lemma_undo_wf(m);
    lemma_restart_wf(m);
    lemma_advance_wf(m, key);
    lemma_apply_settings_wf(m, s);
    lemma_new_game_wf(m, deal);
}

} // verus!
