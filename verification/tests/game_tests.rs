use patience::board::{Board, BoardPos, DepotRole, NUM_DEPOTS};
use patience::card::{card_face, Card, CardFace, Suit, SuitColor, DECK_SIZE};
use patience::card::Suit::{Clubs, Diamonds, Hearts, Spades};
use patience::game::{ActionRecord, GameState, ScreenState, SettingsState, Skin};

fn card(rank: u8, suit: Suit) -> Card {
    Card { rank, suit }
}

fn ordered_deck() -> Vec<Card> {
    let suits = [Suit::Clubs, Suit::Diamonds, Suit::Hearts, Suit::Spades];
    let mut deck = Vec::new();
    for rank in 1..=9u8 {
        for suit in suits {
            deck.push(card(rank, suit));
        }
    }
    deck
}

fn sorted(mut cards: Vec<Card>) -> Vec<(u8, u8)> {
    let mut v: Vec<(u8, u8)> = cards
        .drain(..)
        .map(|c| {
            let s = match c.suit {
                Suit::Clubs => 0,
                Suit::Diamonds => 1,
                Suit::Hearts => 2,
                Suit::Spades => 3,
            };
            (c.rank, s)
        })
        .collect();
    v.sort();
    v
}

fn all_board_cards(g: &GameState) -> Vec<Card> {
    g.board.depots.iter().flat_map(|d| d.iter().copied()).collect()
}

/// Rows 0 to 3 hold the animals of one kind each; rows 4 to 7 hold four hunters of a
/// stack each, row 8 the four aces.
fn near_win_deal() -> Vec<Card> {
    vec![
        card(6, Clubs), card(7, Clubs), card(8, Clubs), card(9, Clubs),
        card(6, Diamonds), card(7, Diamonds), card(8, Diamonds), card(9, Diamonds),
        card(6, Hearts), card(7, Hearts), card(8, Hearts), card(9, Hearts),
        card(6, Spades), card(7, Spades), card(8, Spades), card(9, Spades),
        card(5, Clubs), card(4, Diamonds), card(3, Clubs), card(2, Diamonds),
        card(5, Spades), card(4, Hearts), card(3, Spades), card(2, Hearts),
        card(5, Diamonds), card(4, Clubs), card(3, Diamonds), card(2, Clubs),
        card(5, Hearts), card(4, Spades), card(3, Hearts), card(2, Spades),
        card(1, Clubs), card(1, Spades), card(1, Diamonds), card(1, Hearts),
    ]
}

/// A game on the near-win deal, its automatic moves played out.
fn near_win_game() -> GameState {
    let mut g = GameState::init();
    let save = g.new_game_with_deal(near_win_deal());
    assert!(!save);
    assert!(g.is_busy());
    let key = g.animation_key;
    assert!(g.advance_animations(key));
    assert!(!g.is_busy());
    g
}

fn settle(g: &mut GameState) -> bool {
    let key = g.animation_key;
    g.advance_animations(key)
}

#[test]
fn animal_and_hunter_ranks() {
    assert!(card(6, Suit::Clubs).is_animal());
    assert!(card(9, Suit::Hearts).is_animal());
    assert!(!card(5, Suit::Clubs).is_animal());
    assert!(card(5, Suit::Clubs).is_hunter());
    assert!(card(1, Suit::Spades).is_hunter());
    assert!(!card(6, Suit::Spades).is_hunter());
}

#[test]
fn suit_colors() {
    assert_eq!(Suit::Clubs.color(), SuitColor::Black);
    assert_eq!(Suit::Spades.color(), SuitColor::Black);
    assert_eq!(Suit::Diamonds.color(), SuitColor::Red);
    assert_eq!(Suit::Hearts.color(), SuitColor::Red);
    assert_eq!(Suit::all(), vec![Suit::Clubs, Suit::Diamonds, Suit::Hearts, Suit::Spades]);
}

#[test]
fn depot_roles() {
    assert_eq!(DepotRole::Tableau.number_of(), 9);
    assert_eq!(DepotRole::Shadow.number_of(), 9);
    assert_eq!(DepotRole::FreeCell.number_of(), 1);
    assert_eq!(DepotRole::Tableau.range(), 0..9);
    assert_eq!(DepotRole::Shadow.range(), 9..18);
    assert_eq!(DepotRole::FreeCell.range(), 18..19);
    assert_eq!(DepotRole::Shadow.id(3), 12);
    assert_eq!(DepotRole::FreeCell.id(0), 18);
    assert_eq!(DepotRole::role(0), Some(DepotRole::Tableau));
    assert_eq!(DepotRole::role(8), Some(DepotRole::Tableau));
    assert_eq!(DepotRole::role(9), Some(DepotRole::Shadow));
    assert_eq!(DepotRole::role(17), Some(DepotRole::Shadow));
    assert_eq!(DepotRole::role(18), Some(DepotRole::FreeCell));
    assert_eq!(DepotRole::role(19), None);
    assert_eq!(DepotRole::role_and_subindex(13), Some((DepotRole::Shadow, 4)));
    assert_eq!(DepotRole::role_and_subindex(18), Some((DepotRole::FreeCell, 0)));
    assert_eq!(DepotRole::role_and_subindex(5), Some((DepotRole::Tableau, 5)));
    assert_eq!(DepotRole::role_and_subindex(usize::MAX), None);
    assert!(DepotRole::Tableau.is_face_up());
    assert!(!DepotRole::Shadow.is_face_up());
    assert!(DepotRole::FreeCell.is_face_up());
}

#[test]
fn empty_board_and_deal_layout() {
    let b = Board::empty();
    assert_eq!(b.depots.len(), NUM_DEPOTS);
    assert!(b.depots.iter().all(|d| d.is_empty()));
    assert_eq!(b.selected, None);
    assert!(b.animation_acts.is_empty());

    let deal: Vec<Card> = ordered_deck().into_iter().take(6).collect();
    let b = Board::from_deal(&deal);
    assert_eq!(b.depots.len(), NUM_DEPOTS);
    assert_eq!(b.depots[0], deal[0..4].to_vec());
    assert_eq!(b.depots[1], deal[4..6].to_vec());
    assert!(b.depots[2..].iter().all(|d| d.is_empty()));

    let full = ordered_deck();
    let b = Board::from_deal(&full);
    for i in 0..9 {
        assert_eq!(b.depots[i], full[4 * i..4 * i + 4].to_vec());
    }
    assert!(b.depots[9..].iter().all(|d| d.is_empty()));
}

#[test]
fn move_and_move_back() {
    let deal = ordered_deck();
    let mut b = Board::from_deal(&deal);
    let before = b.depots.clone();
    b.selected = Some(BoardPos::new(0, 1));
    let p1 = BoardPos::new(0, 1);
    let p2 = b.top_pos(18);
    assert_eq!(p2, BoardPos::new(18, 0));
    b.do_move(p1, p2);
    assert_eq!(b.depots[0], deal[0..1].to_vec());
    assert_eq!(b.depots[18], deal[1..4].to_vec());
    assert_eq!(b.selected, None);
    assert_eq!(b.animation_acts.len(), 1);
    b.do_move(p2, p1);
    assert_eq!(b.depots, before);
    assert_eq!(b.animation_acts.len(), 2);
    b.advance_actions();
    assert!(b.animation_acts.is_empty());
}

#[test]
fn new_deal_is_a_shuffled_deck() {
    let ordered = ordered_deck();
    let mut some_differs = false;
    for _ in 0..5 {
        let deal = GameState::new_deal();
        assert_eq!(deal.len(), DECK_SIZE);
        assert_eq!(sorted(deal.clone()), sorted(ordered.clone()));
        if deal != ordered {
            some_differs = true;
        }
    }
    assert!(some_differs);
}

#[test]
fn init_deals_the_whole_deck() {
    let g = GameState::init();
    assert_eq!(g.deal.len(), DECK_SIZE);
    assert_eq!(sorted(all_board_cards(&g)), sorted(ordered_deck()));
    assert_eq!(sorted(g.deal.clone()), sorted(ordered_deck()));
    assert_eq!(g.num_wins, 0);
    assert!(!g.already_won);
    assert!(g.allow_undo);
    assert_eq!(g.screen_state, ScreenState::Game);
    assert_eq!(g.animation_key, 0);
    assert!(g.undo_stack.is_empty());
    assert_eq!(g.board.depots.len(), NUM_DEPOTS);
}

#[test]
fn stacking_rules() {
    let g = GameState::init();
    assert!(g.can_stack(card(5, Clubs), card(4, Hearts)));
    assert!(g.can_stack(card(2, Diamonds), card(1, Spades)));
    assert!(!g.can_stack(card(5, Clubs), card(4, Spades)));
    assert!(!g.can_stack(card(5, Clubs), card(3, Hearts)));
    assert!(!g.can_stack(card(4, Hearts), card(5, Clubs)));
    assert!(g.can_stack(card(6, Clubs), card(9, Clubs)));
    assert!(g.can_stack(card(9, Hearts), card(7, Hearts)));
    assert!(!g.can_stack(card(6, Clubs), card(7, Spades)));
    assert!(!g.can_stack(card(6, Clubs), card(5, Diamonds)));
    assert!(!g.can_stack(card(5, Diamonds), card(6, Clubs)));
}

#[test]
fn ordered_deal_has_no_automatic_moves() {
    let mut g = GameState::init();
    let save = g.new_game_with_deal(ordered_deck());
    assert!(save);
    assert!(!g.is_busy());
    assert!(g.history.is_empty());
    for i in 0..9 {
        assert_eq!(g.board.depots[i].len(), 4);
    }
}

#[test]
fn complete_animal_stacks_hide() {
    let g = near_win_game();
    for i in 0..4 {
        assert!(g.board.depots[i].is_empty());
        assert_eq!(g.board.depots[9 + i].len(), 4);
    }
    assert_eq!(g.history.len(), 4);
    assert_eq!(g.history[0], ActionRecord { pos1: BoardPos::new(0, 0), pos2: BoardPos::new(9, 0) });
    assert!(g.undo_stack.is_empty());
    assert!(!g.undo_possible());
    assert!(!g.is_won());
    assert_eq!(sorted(all_board_cards(&g)), sorted(ordered_deck()));
}

#[test]
fn selection_rules() {
    let mut g = near_win_game();
    // Hidden zones can not be selected.
    assert!(!g.can_select(BoardPos::new(9, 0)));
    // A full hunter stack in a row can be selected from any card.
    assert!(g.can_select(BoardPos::new(4, 0)));
    assert!(g.can_select(BoardPos::new(4, 3)));
    // The aces do not form a stack.
    assert!(!g.can_select(BoardPos::new(8, 0)));
    assert!(g.can_select(BoardPos::new(8, 3)));
    // Past the top card.
    assert!(!g.can_select(BoardPos::new(8, 4)));
    // An empty row.
    assert!(!g.can_select(BoardPos::new(0, 0)));

    g.onclick(BoardPos::new(8, 3));
    assert_eq!(g.board.selected, Some(BoardPos::new(8, 3)));
    // Another selectable card of the same row becomes the selection.
    g.onclick(BoardPos::new(8, 3));
    assert_eq!(g.board.selected, None);
    g.onclick(BoardPos::new(8, 0));
    assert_eq!(g.board.selected, None);
    g.onclick(BoardPos::new(4, 1));
    assert_eq!(g.board.selected, Some(BoardPos::new(4, 1)));
    g.onclick(BoardPos::new(4, 2));
    assert_eq!(g.board.selected, Some(BoardPos::new(4, 2)));
    // A move that is not allowed keeps the selection.
    g.onclick(BoardPos::new(5, 3));
    assert_eq!(g.board.selected, Some(BoardPos::new(4, 2)));
    assert_eq!(g.history.len(), 4);
}

#[test]
fn move_rules() {
    let g = near_win_game();
    // Onto a row whose top card takes it.
    assert!(g.can_move(BoardPos::new(8, 3), BoardPos::new(6, 4)));
    // Not onto the same depot.
    assert!(!g.can_move(BoardPos::new(8, 3), BoardPos::new(8, 4)));
    // Only on top of a depot.
    assert!(!g.can_move(BoardPos::new(8, 3), BoardPos::new(6, 3)));
    // Not onto a card that does not take it.
    assert!(!g.can_move(BoardPos::new(8, 3), BoardPos::new(5, 4)));
    // Not onto an empty row whose hidden zone is full.
    assert!(!g.can_move(BoardPos::new(8, 3), BoardPos::new(0, 0)));
    // Never onto a hidden zone.
    assert!(!g.can_move(BoardPos::new(8, 3), BoardPos::new(13, 0)));
    // A single card onto the empty free cell, but not a stack.
    assert!(g.can_move(BoardPos::new(8, 3), BoardPos::new(18, 0)));
    assert!(!g.can_move(BoardPos::new(4, 2), BoardPos::new(18, 0)));
}

#[test]
fn click_moves_and_undo_restores() {
    let mut g = near_win_game();
    let before = g.board.depots.clone();
    let history_before = g.history.clone();
    g.onclick(BoardPos::new(8, 3));
    g.onclick(BoardPos::new(6, 3));
    assert_eq!(g.board.depots[6].len(), 5);
    assert_eq!(g.board.depots[8].len(), 3);
    assert_eq!(g.board.selected, None);
    assert_eq!(g.undo_stack, vec![4]);
    assert_eq!(g.history.len(), 5);
    assert!(g.is_busy());
    // Undo waits for the animation.
    assert!(!g.undo());
    assert_eq!(g.history.len(), 5);
    assert!(settle(&mut g));
    assert!(g.undo_possible());
    assert!(g.undo());
    assert_eq!(g.board.depots, before);
    assert_eq!(g.history, history_before);
    assert!(g.undo_stack.is_empty());
    assert!(!g.undo());
}

#[test]
fn undo_not_allowed() {
    let mut g = near_win_game();
    g.apply_settings(&SettingsState { allow_undo: false, skin: Skin });
    assert_eq!(g.new_settings_state(), SettingsState { allow_undo: false, skin: Skin });
    g.onclick(BoardPos::new(8, 3));
    g.onclick(BoardPos::new(6, 3));
    settle(&mut g);
    assert!(!g.undo_possible());
    assert!(!g.undo());
    assert!(!g.restart());
    assert_eq!(g.board.depots[6].len(), 5);
}

#[test]
fn double_click_to_free_cell() {
    let mut g = near_win_game();
    g.ondoubleclick(BoardPos::new(8, 3));
    assert_eq!(g.board.depots[18], vec![card(1, Suit::Hearts)]);
    assert_eq!(g.board.depots[8].len(), 3);
    settle(&mut g);
    // The free cell is taken.
    g.ondoubleclick(BoardPos::new(8, 2));
    assert_eq!(g.board.depots[18].len(), 1);
    assert_eq!(g.board.depots[8].len(), 3);
    // A stack does not go to the free cell.
    g.ondoubleclick(BoardPos::new(4, 2));
    assert_eq!(g.board.depots[4].len(), 4);
    // Undo brings the card back.
    assert!(g.undo());
    assert_eq!(g.board.depots[18].len(), 0);
    assert_eq!(g.board.depots[8].len(), 4);
}

#[test]
fn click_on_empty_frame_moves_to_empty_row() {
    let mut g = near_win_game();
    g.ondoubleclick(BoardPos::new(8, 3));
    settle(&mut g);
    // A click on the free cell's card selects it; a click on the frame of an empty row
    // whose hidden zone is full does not move it.
    g.onclick(BoardPos::new(18, 0));
    assert_eq!(g.board.selected, Some(BoardPos::new(18, 0)));
    g.onclick(BoardPos::new(0, usize::MAX));
    assert_eq!(g.board.depots[18].len(), 1);
    // Onto the row that takes it.
    g.onclick(BoardPos::new(6, 3));
    assert_eq!(g.board.depots[18].len(), 0);
    assert_eq!(g.board.depots[6].len(), 5);
}

#[test]
fn busy_blocks_clicks() {
    let mut g = GameState::init();
    g.new_game_with_deal(near_win_deal());
    assert!(g.is_busy());
    assert!(g.is_acting());
    g.onclick(BoardPos::new(8, 3));
    assert_eq!(g.board.selected, None);
    g.ondoubleclick(BoardPos::new(8, 3));
    assert!(g.board.depots[18].is_empty());
}

#[test]
fn stale_animation_key_changes_nothing() {
    let mut g = GameState::init();
    g.new_game_with_deal(near_win_deal());
    let key = g.animation_key;
    assert!(!g.advance_animations(key.wrapping_add(7)));
    assert!(g.is_busy());
    assert_eq!(g.animation_key, key);
    assert!(g.advance_animations(key));
    assert_eq!(g.animation_key, key.wrapping_add(1));
}

#[test]
fn winning_counts_once() {
    let mut g = near_win_game();
    let moves = [(3usize, 6usize), (2, 7), (1, 4), (0, 5)];
    for (from, to) in moves {
        g.onclick(BoardPos::new(8, from));
        g.onclick(BoardPos::new(to, 3));
        assert_eq!(g.board.depots[to].len(), 5);
        settle(&mut g);
    }
    assert!(g.board.depots[8].is_empty());
    assert!(g.is_won());
    assert_eq!(g.num_wins, 1);
    assert!(g.already_won);
    // A won game takes no clicks.
    g.onclick(BoardPos::new(4, 0));
    assert_eq!(g.board.selected, None);
    g.ondoubleclick(BoardPos::new(4, 4));
    assert!(g.board.depots[18].is_empty());
    // The win counts once.
    let key = g.animation_key;
    assert!(g.advance_animations(key));
    assert_eq!(g.num_wins, 1);
    // A new game clears the flag and keeps the count.
    g.new_game_with_deal(ordered_deck());
    assert!(!g.already_won);
    assert_eq!(g.num_wins, 1);
}

#[test]
fn restart_replays_the_deal() {
    let mut g = near_win_game();
    // No moves of the player yet: restart does nothing.
    assert!(!g.restart());
    g.onclick(BoardPos::new(8, 3));
    g.onclick(BoardPos::new(6, 3));
    settle(&mut g);
    let save = g.restart();
    assert!(!save);
    assert!(g.undo_stack.is_empty());
    assert_eq!(g.history.len(), 4);
    assert!(g.is_busy());
    assert_eq!(g.board.depots[8].len(), 4);
    settle(&mut g);
    let mut fresh = GameState::init();
    fresh.new_game_with_deal(near_win_deal());
    settle(&mut fresh);
    assert_eq!(g.board.depots, fresh.board.depots);
    assert_eq!(g.history, fresh.history);
}

#[test]
fn screen_and_skin_defaults() {
    assert_eq!(ScreenState::default(), ScreenState::Game);
    assert_eq!(Skin::default(), Skin);
    let g = GameState::init();
    assert_eq!(g.new_settings_state(), SettingsState { allow_undo: true, skin: Skin });
}

#[test]
fn check_auto_moves_direct() {
    let mut g = near_win_game();
    g.check_auto_moves();
    assert_eq!(g.history.len(), 4);
    assert!(!g.is_busy());
}

fn hand_built(board: Board) -> GameState {
    GameState { board, history: vec![], undo_stack: vec![], ..GameState::init() }
}

#[test]
fn click_on_empty_row_frame_moves_selection() {
    let t0 = DepotRole::Tableau.id(0);
    let t1 = DepotRole::Tableau.id(1);
    let mut b = Board::empty();
    b.depots[t0] = vec![card(2, Spades)];
    b.selected = Some(BoardPos::new(t0, 0));
    let mut s = hand_built(b);
    s.onclick(BoardPos::new(t1, usize::MAX));
    assert_eq!(s.board.depots[t1], vec![card(2, Spades)]);
    assert!(s.board.depots[t0].is_empty());
    assert_eq!(s.undo_stack, vec![0]);
    assert_eq!(s.history, vec![ActionRecord { pos1: BoardPos::new(t0, 0), pos2: BoardPos::new(t1, 0) }]);
}

#[test]
fn refused_move_changes_nothing() {
    let t0 = DepotRole::Tableau.id(0);
    let t1 = DepotRole::Tableau.id(1);
    let mut b = Board::empty();
    b.depots[t0] = vec![card(2, Spades)];
    b.depots[t1] = vec![card(3, Clubs)];
    b.selected = Some(BoardPos::new(t0, 0));
    let mut s = hand_built(b);
    let s0 = s.clone();
    s.onclick(BoardPos::new(t1, 0));
    assert_eq!(s, s0);
    assert_eq!(s.board.selected, Some(BoardPos::new(t0, 0)));
}

#[test]
fn lone_card_goes_to_free_cell() {
    let t0 = DepotRole::Tableau.id(0);
    let f = DepotRole::FreeCell.id(0);
    let mut b = Board::empty();
    b.depots[t0] = vec![card(7, Clubs)];
    let mut s = hand_built(b);
    s.ondoubleclick(BoardPos::new(t0, 0));
    assert_eq!(s.board.depots[f], vec![card(7, Clubs)]);
    assert!(s.board.depots[t0].is_empty());
    assert_eq!(s.undo_stack, vec![0]);
    assert_eq!(s.history, vec![ActionRecord { pos1: BoardPos::new(t0, 0), pos2: BoardPos::new(f, 0) }]);
}

#[test]
fn lone_animal_row_hides() {
    let t = |i| DepotRole::Tableau.id(i);
    let sh = |i| DepotRole::Shadow.id(i);
    let mut b = Board::empty();
    let row0 = vec![card(9, Clubs), card(6, Clubs), card(8, Clubs), card(7, Clubs)];
    let row1 = vec![card(5, Hearts), card(6, Diamonds), card(7, Diamonds), card(8, Diamonds), card(9, Diamonds)];
    b.depots[t(0)] = row0.clone();
    b.depots[t(1)] = row1.clone();
    let mut s = GameState { board: b, history: vec![], ..GameState::init() };
    s.check_auto_moves();
    assert_eq!(s.board.depots[sh(0)], row0);
    assert!(s.board.depots[t(0)].is_empty());
    assert_eq!(s.board.depots[t(1)], row1);
    assert!(s.board.depots[sh(1)].is_empty());
    assert_eq!(s.history, vec![ActionRecord { pos1: BoardPos::new(t(0), 0), pos2: BoardPos::new(sh(0), 0) }]);
    assert!(s.undo_stack.is_empty());
}

#[test]
fn animation_round_ends_once() {
    let mut g = GameState::init();
    g.new_game_with_deal(near_win_deal());
    g.animation_key = u16::MAX;
    let key = g.animation_key;
    assert!(g.advance_animations(key));
    assert_eq!(g.animation_key, 0);
    let after = g.clone();
    assert!(!g.advance_animations(key));
    assert_eq!(g, after);
}

#[test]
fn second_restart_changes_nothing() {
    let mut g = near_win_game();
    let first = g.board.depots.clone();
    let first_history = g.history.clone();
    g.onclick(BoardPos::new(8, 3));
    g.onclick(BoardPos::new(6, 3));
    settle(&mut g);
    g.ondoubleclick(BoardPos::new(8, 2));
    settle(&mut g);
    g.restart();
    settle(&mut g);
    assert_eq!(g.board.depots, first);
    assert_eq!(g.history, first_history);
    assert!(!g.undo_possible());
    let after = g.clone();
    assert!(!g.restart());
    assert_eq!(g, after);
}

#[test]
fn undo_reverts_move_and_following_hides() {
    // Row 0: three clubs animals and a hunter; the hunter leaves, the animals hide.
    let mut deal = near_win_deal();
    // Put the 2 of Diamonds on top of row 0 in place of the 9 of Clubs, and the 9 of
    // Clubs where the 2 of Diamonds was (row 4, on top).
    deal.swap(3, 19);
    let mut g = GameState::init();
    g.new_game_with_deal(deal);
    settle(&mut g);
    assert_eq!(g.board.depots[0].len(), 4);
    let before = g.board.depots.clone();
    let history_before = g.history.clone();
    // The 2 of Diamonds goes to the free cell; the 9 of Clubs then joins row 0.
    g.ondoubleclick(BoardPos::new(0, 3));
    settle(&mut g);
    g.onclick(BoardPos::new(4, 3));
    g.onclick(BoardPos::new(0, 2));
    assert_eq!(g.board.depots[0].len(), 4);
    // The end of the move's animation hides the completed row.
    settle(&mut g);
    assert!(g.is_busy());
    settle(&mut g);
    assert!(!g.is_busy());
    assert!(g.board.depots[0].is_empty());
    assert_eq!(g.board.depots[9].len(), 4);
    assert!(g.undo());
    assert_eq!(g.board.depots[0].len(), 3);
    assert_eq!(g.board.depots[9].len(), 0);
    assert!(g.undo());
    assert_eq!(g.board.depots, before);
    assert_eq!(g.history, history_before);
    assert!(g.undo_stack.is_empty());
}

#[test]
fn card_faces() {
    assert_eq!(card_face(card(3, Hearts)), CardFace::Number(3, SuitColor::Red));
    assert_eq!(card_face(card(5, Clubs)), CardFace::Number(5, SuitColor::Black));
    assert_eq!(card_face(card(6, Spades)), CardFace::Animal(Spades));
}
