use vstd::prelude::*;

use crate::board::{
    move_depots, BoardPos, NUM_DEPOTS, NUM_SHADOWS, NUM_TABLEAUS,
};
use crate::card::{is_animal_card, suit_color, Card, Suit, ANIMAL_COPIES, NUM_HUNTER_RANKS, NUM_SUITS};
use crate::board::{dealt_board, BoardModel};
use crate::game::ActionRecord;
use crate::rules::{
    above, advance_animations_m, auto_from, auto_ready, auto_step, can_select_at,
    check_auto_moves_m, freecell_top, is_busy_m, lemma_layout_facts, new_game_m,
    ondoubleclick_m, onclick_m, restart_m, GameModel,
    can_move_to, can_stack_cards, count_done_tableaus, count_full_shadows, freecell_index,
    is_stack_seq, is_won_depots, tableau_done,
};

verus! {

/// The card is an animal of the given kind.
pub open spec fn animal_of_kind(c: Card, kind: Suit) -> bool {
    is_animal_card(c) && c.suit == kind
}

/// All cards of a sequence are animals of the kind of its first card.
pub open spec fn one_kind_of_animals(s: Seq<Card>) -> bool {
    forall|k: int| 0 <= k < s.len() ==> #[trigger] animal_of_kind(s[k], s[0].suit)
}

/// `b` is one rank below `a` and of the other colour.
pub open spec fn next_lower_other_colour(a: Card, b: Card) -> bool {
    b.rank + 1 == a.rank && suit_color(a.suit) != suit_color(b.suit)
}

/// All cards of a sequence are hunters, each one rank below the one before it and of
/// the other colour.
pub open spec fn hunter_run(s: Seq<Card>) -> bool {
    &&& forall|k: int| 0 <= k < s.len() ==> !#[trigger] is_animal_card(s[k])
    &&& forall|k: int| 0 <= k < s.len() - 1 ==> #[trigger] next_lower_other_colour(s[k], s[k + 1])
}

/// What may lie on an animal and what on a hunter: on an animal only an animal of the
/// same kind; on a hunter only a hunter of the other colour and one rank lower; and
/// each such pair may.
pub proof fn stacking_rule(back: Card, front: Card)
    ensures
        is_animal_card(back) ==> (can_stack_cards(back, front) <==> is_animal_card(front)
            && front.suit == back.suit),
        !is_animal_card(back) ==> (can_stack_cards(back, front) <==> !is_animal_card(front)
            && suit_color(front.suit) != suit_color(back.suit) && front.rank + 1 == back.rank),
{
}

/// A stack on an animal holds only animals of that kind.
pub proof fn stack_on_animal_is_one_kind(s: Seq<Card>)
    requires
        is_stack_seq(s),
        s.len() > 0,
        is_animal_card(s[0]),
    ensures
        one_kind_of_animals(s),
{
    assert forall|k: int| 0 <= k < s.len() implies #[trigger] animal_of_kind(s[k], s[0].suit) by {
        lemma_animal_prefix(s, k);
    }
}

proof fn lemma_animal_prefix(s: Seq<Card>, k: int)
    requires
        is_stack_seq(s),
        0 <= k < s.len(),
        is_animal_card(s[0]),
    ensures
        is_animal_card(s[k]) && s[k].suit == s[0].suit,
    decreases k,
{
    if k > 0 {
        lemma_animal_prefix(s, k - 1);
        assert(can_stack_cards(s[k - 1], s[(k - 1) + 1]));
    }
}

proof fn lemma_hunter_prefix(s: Seq<Card>, k: int)
    requires
        is_stack_seq(s),
        0 <= k < s.len(),
        !is_animal_card(s[0]),
    ensures
        !is_animal_card(s[k]),
    decreases k,
{
    if k > 0 {
        lemma_hunter_prefix(s, k - 1);
        assert(can_stack_cards(s[k - 1], s[(k - 1) + 1]));
    }
}

/// A stack on a hunter is a run of hunters, descending by one with alternating colours.
pub proof fn stack_on_hunter_is_run(s: Seq<Card>)
    requires
        is_stack_seq(s),
        s.len() > 0,
        !is_animal_card(s[0]),
    ensures
        hunter_run(s),
{
    assert forall|k: int| 0 <= k < s.len() implies !#[trigger] is_animal_card(s[k]) by {
        lemma_hunter_prefix(s, k);
    }
    assert forall|k: int| 0 <= k < s.len() - 1 implies #[trigger] next_lower_other_colour(s[k], s[k + 1]) by {
        lemma_hunter_prefix(s, k);
        assert(can_stack_cards(s[k], s[k + 1]));
    }
}

/// Animals of one kind, and runs of hunters, are stacks.
pub proof fn kinds_and_runs_are_stacks(s: Seq<Card>)
    ensures
        one_kind_of_animals(s) ==> is_stack_seq(s),
        hunter_run(s) ==> is_stack_seq(s),
{
    if one_kind_of_animals(s) {
        assert forall|i: int| 0 <= i < s.len() - 1 implies #[trigger] can_stack_cards(s[i], s[i + 1]) by {
            assert(animal_of_kind(s[i], s[0].suit));
            assert(animal_of_kind(s[i + 1], s[0].suit));
        }
    }
    if hunter_run(s) {
        assert forall|i: int| 0 <= i < s.len() - 1 implies #[trigger] can_stack_cards(s[i], s[i + 1]) by {
            assert(!is_animal_card(s[i]));
            assert(!is_animal_card(s[i + 1]));
            assert(next_lower_other_colour(s[i], s[i + 1]));
        }
    }
}

/// A non-empty sequence is a stack exactly when it is animals of one kind or a run of hunters.
pub proof fn stacks_are_kinds_or_runs(s: Seq<Card>)
    requires
        s.len() > 0,
    ensures
        is_stack_seq(s) <==> (one_kind_of_animals(s) || hunter_run(s)),
{
    kinds_and_runs_are_stacks(s);
    if is_stack_seq(s) {
        if is_animal_card(s[0]) {
            stack_on_animal_is_one_kind(s);
        } else {
            stack_on_hunter_is_run(s);
        }
    }
}

/// A row that completes a stack: five cards, a run of hunters or animals of one kind.
pub open spec fn complete_row(s: Seq<Card>) -> bool {
    s.len() == NUM_HUNTER_RANKS && (hunter_run(s) || one_kind_of_animals(s))
}

/// The number of complete rows among the first `n` tableau rows.
pub open spec fn count_complete_rows(d: Seq<Seq<Card>>, n: int) -> nat
    decreases n,
{
    if n <= 0 {
        0
    } else {
        count_complete_rows(d, n - 1) + if complete_row(d[n - 1]) { 1nat } else { 0nat }
    }
}

/// The number of hidden zones, among the first `n`, that hold four cards.
pub open spec fn count_four_card_zones(d: Seq<Seq<Card>>, n: int) -> nat
    decreases n,
{
    if n <= 0 {
        0
    } else {
        count_four_card_zones(d, n - 1) + if d[NUM_TABLEAUS + n - 1].len() == 4 { 1nat } else { 0nat }
    }
}

proof fn lemma_counts_agree(d: Seq<Seq<Card>>, n: int)
    requires
        0 <= n <= NUM_TABLEAUS,
    ensures
        count_done_tableaus(d, n) == count_complete_rows(d, n),
        count_full_shadows(d, n) == count_four_card_zones(d, n),
    decreases n,
{
    if n > 0 {
        lemma_counts_agree(d, n - 1);
        let s = d[n - 1];
        if s.len() == NUM_HUNTER_RANKS {
            stacks_are_kinds_or_runs(s);
        }
        assert(tableau_done(d, n - 1) == complete_row(s));
    }
}

/// The game is won exactly when four hidden zones hold four cards and four tableau rows
/// each hold five cards that form a run of hunters (descending by one, alternating
/// colours) or animals of one kind.
pub proof fn won_means_four_zones_and_four_complete_rows(d: Seq<Seq<Card>>)
    ensures
        is_won_depots(d) <==> (count_four_card_zones(d, NUM_SHADOWS as int) == NUM_SUITS
            && count_complete_rows(d, NUM_TABLEAUS as int) == NUM_SUITS),
{
    lemma_counts_agree(d, NUM_TABLEAUS as int);
}

/// Where cards may go: onto a tableau row only when its hidden zone is empty and the
/// lowest moved card (the one at `from`) fits on the row's top card, if it has one, and
/// only on top of the row; into the free cell only one card and only when it is empty;
/// never into a hidden zone.
pub proof fn where_cards_may_go(d: Seq<Seq<Card>>, from: BoardPos, to: BoardPos)
    requires
        d.len() == NUM_DEPOTS,
        to.depot_index < NUM_DEPOTS,
        can_move_to(d, from, to),
    ensures
        from.depot_index != to.depot_index,
        to.card_index == d[to.depot_index as int].len(),
        to.depot_index < NUM_TABLEAUS ==> d[NUM_TABLEAUS + to.depot_index].len() == 0,
        to.depot_index < NUM_TABLEAUS && d[to.depot_index as int].len() > 0 ==> {
            let top = d[to.depot_index as int].last();
            let low = d[from.depot_index as int][from.card_index as int];
            &&& is_animal_card(top) ==> is_animal_card(low) && low.suit == top.suit
            &&& !is_animal_card(top) ==> !is_animal_card(low) && suit_color(low.suit) != suit_color(top.suit)
                && low.rank + 1 == top.rank
        },
        !(NUM_TABLEAUS <= to.depot_index < NUM_TABLEAUS + NUM_SHADOWS),
        to.depot_index == freecell_index() ==> d[to.depot_index as int].len() == 0
            && d[from.depot_index as int].len() - from.card_index == 1,
{
    if to.depot_index < NUM_TABLEAUS && d[to.depot_index as int].len() > 0 {
        stacking_rule(d[to.depot_index as int].last(), d[from.depot_index as int][from.card_index as int]);
    }
}

/// A move of a stack onto a tableau row keeps the row a stack from its old top card up:
/// the destination, from its old top card (or its bottom, if it was empty) to its new
/// top, is a stack.
pub proof fn allowed_move_builds_stack(d: Seq<Seq<Card>>, from: BoardPos, to: BoardPos)
    requires
        d.len() == NUM_DEPOTS,
        from.depot_index < NUM_DEPOTS,
        to.depot_index < NUM_TABLEAUS,
        from.card_index < d[from.depot_index as int].len(),
        can_move_to(d, from, to),
        is_stack_seq(
            d[from.depot_index as int].subrange(from.card_index as int, d[from.depot_index as int].len() as int),
        ),
    ensures
        ({
            let row = move_depots(d, from, to)[to.depot_index as int];
            let old_len = d[to.depot_index as int].len() as int;
            let start = if old_len > 0 { old_len - 1 } else { 0 };
            is_stack_seq(row.subrange(start, row.len() as int))
        }),
{
    let a = from.depot_index as int;
    let b = to.depot_index as int;
    let mv = d[a].subrange(from.card_index as int, d[a].len() as int);
    let row = move_depots(d, from, to)[b];
    assert(row == d[b] + mv);
    let old_len = d[b].len() as int;
    let start = if old_len > 0 { old_len - 1 } else { 0 };
    let r = row.subrange(start, row.len() as int);
    assert forall|i: int| 0 <= i < r.len() - 1 implies #[trigger] can_stack_cards(r[i], r[i + 1]) by {
        if old_len > 0 {
            if i == 0 {
                assert(r[0] == d[b].last());
                assert(r[1] == mv[0]);
            } else {
                assert(r[i] == mv[i - 1]);
                assert(r[i + 1] == mv[(i - 1) + 1]);
                assert(can_stack_cards(mv[i - 1], mv[(i - 1) + 1]));
            }
        } else {
            assert(r[i] == mv[i]);
            assert(r[i + 1] == mv[i + 1]);
            assert(can_stack_cards(mv[i], mv[i + 1]));
        }
    }
}

/// Whether a position lies in a hidden zone.
pub open spec fn in_hidden_zone(depot: int) -> bool {
    NUM_TABLEAUS <= depot < NUM_TABLEAUS + NUM_SHADOWS
}

/// A double click never takes a card out of a hidden zone: after it every hidden zone
/// holds the cards it held before; and it moves cards only from a position whose cards
/// can be selected.
pub proof fn double_click_leaves_hidden_zones(m: GameModel, pos: BoardPos)
    requires
        m.board.depots.len() == NUM_DEPOTS,
        pos.depot_index < NUM_DEPOTS,
    ensures
        forall|j: int| #![trigger ondoubleclick_m(m, pos).board.depots[j]]
            in_hidden_zone(j) ==> ondoubleclick_m(m, pos).board.depots[j] == m.board.depots[j],
        ondoubleclick_m(m, pos).board.depots != m.board.depots ==> can_select_at(m.board.depots, pos),
{
}

/// A click never takes a card out of a hidden zone, unless the selection lies in one
/// (which no click makes): after it every hidden zone holds the cards it held before.
pub proof fn click_leaves_hidden_zones(m: GameModel, pos: BoardPos)
    requires
        m.well_shaped(),
        pos.depot_index < NUM_DEPOTS,
        m.board.selected matches Some(p) ==> !in_hidden_zone(p.depot_index as int),
    ensures
        forall|j: int| #![trigger onclick_m(m, pos).board.depots[j]]
            in_hidden_zone(j) ==> onclick_m(m, pos).board.depots[j] == m.board.depots[j],
        onclick_m(m, pos).board.selected matches Some(p) ==> !in_hidden_zone(p.depot_index as int),
{
}

/// The four animals of one kind, and nothing else.
pub open spec fn four_of_a_kind(s: Seq<Card>) -> bool {
    s.len() == ANIMAL_COPIES && one_kind_of_animals(s)
}

/// A row that hides holds four animals of one kind and nothing else.
pub proof fn ready_rows_are_four_of_a_kind(d: Seq<Seq<Card>>, i: int)
    requires
        0 <= i < d.len(),
        auto_ready(d, i),
    ensures
        four_of_a_kind(d[i]),
{
    stack_on_animal_is_one_kind(d[i]);
}

/// What the automatic moves did to row `j` and its hidden zone: either both are as
/// before, or the row held four animals of one kind, which went on top of the zone,
/// and the row is empty.
pub open spec fn zone_outcome(before: Seq<Seq<Card>>, after: Seq<Seq<Card>>, j: int) -> bool {
    ||| after[NUM_TABLEAUS + j] == before[NUM_TABLEAUS + j] && after[j] == before[j]
    ||| four_of_a_kind(before[j]) && after[NUM_TABLEAUS + j] == before[NUM_TABLEAUS + j] + before[j]
        && after[j].len() == 0
}

proof fn lemma_auto_from_zones(d0: Seq<Seq<Card>>, m: GameModel, i: int)
    requires
        d0.len() == NUM_DEPOTS,
        m.board.depots.len() == NUM_DEPOTS,
        0 <= i <= NUM_TABLEAUS,
        forall|j: int| 0 <= j < i ==> #[trigger] zone_outcome(d0, m.board.depots, j),
        forall|j: int| i <= j < NUM_TABLEAUS ==> #[trigger] m.board.depots[j] == d0[j],
        forall|j: int| i <= j < NUM_TABLEAUS ==> #[trigger] m.board.depots[NUM_TABLEAUS + j] == d0[NUM_TABLEAUS + j],
        m.board.depots[freecell_index()] == d0[freecell_index()],
    ensures
        forall|j: int| 0 <= j < NUM_TABLEAUS ==> #[trigger] zone_outcome(d0, auto_from(m, i).board.depots, j),
        auto_from(m, i).board.depots[freecell_index()] == d0[freecell_index()],
        auto_from(m, i).board.depots.len() == NUM_DEPOTS,
    decreases NUM_TABLEAUS - i,
{
    if i < NUM_TABLEAUS {
        let d = m.board.depots;
        let m1 = auto_step(m, i);
        let d1 = m1.board.depots;
        assert(d[i] == d0[i]);
        assert(d[NUM_TABLEAUS + i] == d0[NUM_TABLEAUS + i]);
        if auto_ready(d, i) {
            ready_rows_are_four_of_a_kind(d, i);
            assert(d1[i] =~= Seq::<Card>::empty());
            assert(d1[NUM_TABLEAUS + i] == d[NUM_TABLEAUS + i] + d[i]);
        }
        assert(zone_outcome(d0, d1, i));
        assert forall|j: int| 0 <= j < i + 1 implies #[trigger] zone_outcome(d0, d1, j) by {
            if j < i {
                assert(zone_outcome(d0, d, j));
                assert(d1[j] == d[j]);
                assert(d1[NUM_TABLEAUS + j] == d[NUM_TABLEAUS + j]);
            }
        }
        assert forall|j: int| i + 1 <= j < NUM_TABLEAUS implies #[trigger] d1[j] == d0[j] by {
            assert(d[j] == d0[j]);
        }
        assert forall|j: int| i + 1 <= j < NUM_TABLEAUS implies #[trigger] d1[NUM_TABLEAUS + j] == d0[NUM_TABLEAUS + j] by {
            assert(d[NUM_TABLEAUS + j] == d0[NUM_TABLEAUS + j]);
        }
        lemma_auto_from_zones(d0, m1, i + 1);
    }
}

/// The automatic moves hide only four animals of one kind: for every row, either the
/// row and its hidden zone keep their cards, or the row held exactly four animals of one
/// kind, they went on top of its own hidden zone, and the row is empty. The free cell
/// keeps its cards.
pub proof fn automatic_moves_hide_only_kinds(m: GameModel)
    requires
        m.board.depots.len() == NUM_DEPOTS,
    ensures
        forall|j: int| 0 <= j < NUM_TABLEAUS ==> #[trigger] zone_outcome(
            m.board.depots,
            check_auto_moves_m(m).board.depots,
            j,
        ),
        check_auto_moves_m(m).board.depots[freecell_index()] == m.board.depots[freecell_index()],
        check_auto_moves_m(m).board.depots.len() == NUM_DEPOTS,
{
    if !is_busy_m(m) {
        lemma_auto_from_zones(m.board.depots, m, 0);
    } else {
        assert forall|j: int| 0 <= j < NUM_TABLEAUS implies #[trigger] zone_outcome(
            m.board.depots,
            check_auto_moves_m(m).board.depots,
            j,
        ) by {}
    }
}

/// Every hidden zone is empty, or holds four animals of one kind while its row is empty.
pub open spec fn hidden_zones_sound(d: Seq<Seq<Card>>) -> bool {
    forall|j: int|
        0 <= j < NUM_SHADOWS ==> #[trigger] d[NUM_TABLEAUS + j].len() == 0 || (four_of_a_kind(
            d[NUM_TABLEAUS + j],
        ) && d[j].len() == 0)
}

/// After the automatic moves from a sound board every hidden zone is still empty or
/// holds four animals of one kind.
pub proof fn automatic_moves_keep_zones_sound(m: GameModel)
    requires
        m.board.depots.len() == NUM_DEPOTS,
        hidden_zones_sound(m.board.depots),
    ensures
        hidden_zones_sound(check_auto_moves_m(m).board.depots),
{
    automatic_moves_hide_only_kinds(m);
    let d = m.board.depots;
    let a = check_auto_moves_m(m).board.depots;
    assert forall|j: int| 0 <= j < NUM_SHADOWS implies #[trigger] a[NUM_TABLEAUS + j].len() == 0 || (
    four_of_a_kind(a[NUM_TABLEAUS + j]) && a[j].len() == 0) by {
        assert(zone_outcome(d, a, j));
        assert(d[NUM_TABLEAUS + j].len() == 0 || (four_of_a_kind(d[NUM_TABLEAUS + j]) && d[j].len() == 0));
        if !(a[NUM_TABLEAUS + j] == d[NUM_TABLEAUS + j] && a[j] == d[j]) {
            assert(d[NUM_TABLEAUS + j].len() == 0);
            assert(a[NUM_TABLEAUS + j] =~= d[j]);
        }
    }
}

/// A player move from a position outside the hidden zones, to a place the rules allow,
/// keeps the hidden zones sound.
proof fn lemma_player_move_keeps_zones(d: Seq<Seq<Card>>, from: BoardPos, to: BoardPos)
    requires
        d.len() == NUM_DEPOTS,
        hidden_zones_sound(d),
        from.depot_index < NUM_DEPOTS,
        to.depot_index < NUM_DEPOTS,
        !in_hidden_zone(from.depot_index as int),
        from.card_index < d[from.depot_index as int].len(),
        can_move_to(d, from, to),
    ensures
        hidden_zones_sound(move_depots(d, from, to)),
{
    where_cards_may_go(d, from, to);
    let d2 = move_depots(d, from, to);
    assert forall|j: int| 0 <= j < NUM_SHADOWS implies #[trigger] d2[NUM_TABLEAUS + j].len() == 0 || (
    four_of_a_kind(d2[NUM_TABLEAUS + j]) && d2[j].len() == 0) by {
        assert(d2[NUM_TABLEAUS + j] == d[NUM_TABLEAUS + j]);
        assert(d[NUM_TABLEAUS + j].len() == 0 || (four_of_a_kind(d[NUM_TABLEAUS + j]) && d[j].len() == 0));
        if d[NUM_TABLEAUS + j].len() != 0 {
            assert(to.depot_index != j);
            assert(from.depot_index != j);
            assert(d2[j] == d[j]);
        }
    }
}

/// Clicks keep every hidden zone empty or holding four animals of one kind, given a
/// selection outside the hidden zones.
pub proof fn click_keeps_zones_sound(m: GameModel, pos: BoardPos)
    requires
        m.well_shaped(),
        pos.depot_index < NUM_DEPOTS,
        m.board.selected matches Some(p) ==> !in_hidden_zone(p.depot_index as int),
        hidden_zones_sound(m.board.depots),
    ensures
        hidden_zones_sound(onclick_m(m, pos).board.depots),
{
    if !(is_busy_m(m) || is_won_depots(m.board.depots)) {
        if let Some(src) = m.board.selected {
            if pos != src && !(src.depot_index == pos.depot_index && can_select_at(m.board.depots, pos))
                && can_move_to(m.board.depots, src, above(pos)) {
                lemma_player_move_keeps_zones(m.board.depots, src, above(pos));
            }
        }
    }
}

/// Double clicks keep every hidden zone empty or holding four animals of one kind.
pub proof fn double_click_keeps_zones_sound(m: GameModel, pos: BoardPos)
    requires
        m.board.depots.len() == NUM_DEPOTS,
        pos.depot_index < NUM_DEPOTS,
        hidden_zones_sound(m.board.depots),
    ensures
        hidden_zones_sound(ondoubleclick_m(m, pos).board.depots),
{
    if !(is_busy_m(m) || is_won_depots(m.board.depots) || !can_select_at(m.board.depots, pos))
        && can_move_to(m.board.depots, pos, freecell_top(m)) {
        lemma_player_move_keeps_zones(m.board.depots, pos, freecell_top(m));
    }
}

/// The end of an animation round keeps every hidden zone empty or holding four animals
/// of one kind.
pub proof fn advance_keeps_zones_sound(m: GameModel, key: u16)
    requires
        m.board.depots.len() == NUM_DEPOTS,
        hidden_zones_sound(m.board.depots),
    ensures
        hidden_zones_sound(advance_animations_m(m, key).0.board.depots),
{
    if key == m.animation_key {
        let m1 = GameModel {
            animation_key: if key == u16::MAX { 0 } else { (key + 1) as u16 },
            board: BoardModel { acts: Seq::empty(), ..m.board },
            ..m
        };
        automatic_moves_keep_zones_sound(m1);
    }
}

/// A new game, and a restart, leave every hidden zone empty or holding four animals of
/// one kind.
pub proof fn new_deals_have_sound_zones(m: GameModel, deal: Seq<Card>)
    ensures
        hidden_zones_sound(new_game_m(m, deal).0.board.depots),
        m.board.depots.len() == NUM_DEPOTS ==> hidden_zones_sound(restart_m(m).0.board.depots)
            || !hidden_zones_sound(m.board.depots),
{
    lemma_layout_facts(deal);
    lemma_layout_facts(m.deal);
    let m1 = GameModel {
        board: dealt_board(deal),
        deal,
        history: Seq::empty(),
        undo_stack: Seq::empty(),
        ..GameModel { already_won: false, ..m }
    };
    assert(hidden_zones_sound(m1.board.depots));
    automatic_moves_keep_zones_sound(m1);
    let m2 = GameModel {
        board: dealt_board(m.deal),
        deal: m.deal,
        history: Seq::empty(),
        undo_stack: Seq::empty(),
        ..m
    };
    assert(hidden_zones_sound(m2.board.depots));
    automatic_moves_keep_zones_sound(m2);
}

/// What may be selected: on a tableau row, the cards from the position up when they are
/// animals of one kind or a run of hunters; in the free cell, its single top card; in a
/// hidden zone, nothing.
pub proof fn what_may_be_selected(d: Seq<Seq<Card>>, pos: BoardPos)
    requires
        d.len() == NUM_DEPOTS,
        pos.depot_index < NUM_DEPOTS,
    ensures
        ({
            let row = d[pos.depot_index as int];
            let sel = row.subrange(pos.card_index as int, row.len() as int);
            &&& can_select_at(d, pos) ==> pos.card_index < row.len()
            &&& in_hidden_zone(pos.depot_index as int) ==> !can_select_at(d, pos)
            &&& pos.depot_index < NUM_TABLEAUS && pos.card_index < row.len() ==> (can_select_at(d, pos)
                <==> (one_kind_of_animals(sel) || hunter_run(sel)))
            &&& pos.depot_index == freecell_index() ==> (can_select_at(d, pos) <==> pos.card_index + 1
                == row.len())
        }),
{
    let row = d[pos.depot_index as int];
    let sel = row.subrange(pos.card_index as int, row.len() as int);
    if pos.card_index < row.len() {
        stacks_are_kinds_or_runs(sel);
    }
}

/// A click that changes the cards on the board moves the selected cards, from the
/// selected one to the top of their depot, onto the top of the clicked depot, where the
/// rules allow it; every other depot keeps its cards.
pub proof fn click_moves_only_the_selection(m: GameModel, pos: BoardPos)
    requires
        m.well_shaped(),
        pos.depot_index < NUM_DEPOTS,
    ensures
        onclick_m(m, pos).board.depots != m.board.depots ==> (m.board.selected matches Some(src) && {
            let d = m.board.depots;
            let a = onclick_m(m, pos).board.depots;
            let s = src.depot_index as int;
            let t = pos.depot_index as int;
            &&& s != t
            &&& a[t] == d[t] + d[s].subrange(src.card_index as int, d[s].len() as int)
            &&& a[s] == d[s].subrange(0, src.card_index as int)
            &&& forall|j: int| 0 <= j < NUM_DEPOTS && j != s && j != t ==> #[trigger] a[j] == d[j]
            &&& can_move_to(d, src, BoardPos { depot_index: pos.depot_index, card_index: d[t].len() as usize })
            &&& onclick_m(m, pos).undo_stack == m.undo_stack.push(m.history.len())
            &&& onclick_m(m, pos).history.len() == m.history.len() + 1
        }),
{
}

/// A click on the top card of a depot (or on the frame of an empty one) moves the
/// selected cards there, when no animation runs, the game is not won and the rules
/// allow the move; the move gets an undo mark.
pub proof fn click_on_top_moves_the_selection(m: GameModel, src: BoardPos, target: usize)
    requires
        m.well_shaped(),
        m.board.selected == Some(src),
        !is_busy_m(m),
        !is_won_depots(m.board.depots),
        target < NUM_DEPOTS,
        target != src.depot_index,
        can_move_to(
            m.board.depots,
            src,
            BoardPos { depot_index: target, card_index: m.board.depots[target as int].len() as usize },
        ),
    ensures
        ({
            let d = m.board.depots;
            let len = d[target as int].len();
            let pos = if len > 0 {
                BoardPos { depot_index: target, card_index: (len - 1) as usize }
            } else {
                BoardPos { depot_index: target, card_index: usize::MAX }
            };
            let a = onclick_m(m, pos);
            let s = src.depot_index as int;
            &&& a.board.depots[target as int] == d[target as int] + d[s].subrange(src.card_index as int, d[s].len() as int)
            &&& a.board.depots[s] == d[s].subrange(0, src.card_index as int)
            &&& a.board.selected is None
            &&& a.undo_stack == m.undo_stack.push(m.history.len())
            &&& a.history == m.history.push(ActionRecord {
                pos1: src,
                pos2: BoardPos { depot_index: target, card_index: len as usize },
            })
        }),
{
}

/// A double click on a lone top card that may be selected sends it to the empty free
/// cell, when no animation runs and the game is not won.
pub proof fn double_click_sends_lone_card_to_free_cell(m: GameModel, pos: BoardPos)
    requires
        m.well_shaped(),
        !is_busy_m(m),
        !is_won_depots(m.board.depots),
        pos.depot_index < NUM_DEPOTS,
        pos.depot_index != freecell_index(),
        can_select_at(m.board.depots, pos),
        pos.card_index + 1 == m.board.depots[pos.depot_index as int].len(),
        m.board.depots[freecell_index()].len() == 0,
    ensures
        ondoubleclick_m(m, pos).board.depots[freecell_index()] == seq![
            m.board.depots[pos.depot_index as int][pos.card_index as int],
        ],
        ondoubleclick_m(m, pos).board.depots[pos.depot_index as int] == m.board.depots[pos.depot_index as int].subrange(0, pos.card_index as int),
        ondoubleclick_m(m, pos).undo_stack == m.undo_stack.push(m.history.len()),
{
    let d = m.board.depots;
    let a = ondoubleclick_m(m, pos).board.depots;
    assert(a[freecell_index()] =~= seq![d[pos.depot_index as int][pos.card_index as int]]);
}

/// The exact effect of the automatic moves on row `j` and its hidden zone.
pub open spec fn hide_outcome(before: Seq<Seq<Card>>, after: Seq<Seq<Card>>, j: int) -> bool {
    if four_of_a_kind(before[j]) {
        after[j].len() == 0 && after[NUM_TABLEAUS + j] == before[NUM_TABLEAUS + j] + before[j]
    } else {
        after[j] == before[j] && after[NUM_TABLEAUS + j] == before[NUM_TABLEAUS + j]
    }
}

/// A row is ready to hide exactly when it holds four animals of one kind and nothing else.
pub proof fn ready_exactly_when_four_of_a_kind(d: Seq<Seq<Card>>, i: int)
    requires
        0 <= i < d.len(),
    ensures
        auto_ready(d, i) <==> four_of_a_kind(d[i]),
{
    if auto_ready(d, i) {
        ready_rows_are_four_of_a_kind(d, i);
    }
    if four_of_a_kind(d[i]) {
        kinds_and_runs_are_stacks(d[i]);
        assert(animal_of_kind(d[i][0], d[i][0].suit));
    }
}

proof fn lemma_auto_from_exact(d0: Seq<Seq<Card>>, m: GameModel, i: int)
    requires
        d0.len() == NUM_DEPOTS,
        m.board.depots.len() == NUM_DEPOTS,
        0 <= i <= NUM_TABLEAUS,
        forall|j: int| 0 <= j < i ==> #[trigger] hide_outcome(d0, m.board.depots, j),
        forall|j: int| i <= j < NUM_TABLEAUS ==> #[trigger] m.board.depots[j] == d0[j],
        forall|j: int| i <= j < NUM_TABLEAUS ==> #[trigger] m.board.depots[NUM_TABLEAUS + j] == d0[NUM_TABLEAUS + j],
        m.board.depots[freecell_index()] == d0[freecell_index()],
    ensures
        forall|j: int| 0 <= j < NUM_TABLEAUS ==> #[trigger] hide_outcome(d0, auto_from(m, i).board.depots, j),
        auto_from(m, i).board.depots[freecell_index()] == d0[freecell_index()],
    decreases NUM_TABLEAUS - i,
{
    if i < NUM_TABLEAUS {
        let d = m.board.depots;
        let m1 = auto_step(m, i);
        let d1 = m1.board.depots;
        assert(d[i] == d0[i]);
        assert(d[NUM_TABLEAUS + i] == d0[NUM_TABLEAUS + i]);
        ready_exactly_when_four_of_a_kind(d, i);
        if auto_ready(d, i) {
            assert(d1[i] =~= Seq::<Card>::empty());
            assert(d1[NUM_TABLEAUS + i] == d[NUM_TABLEAUS + i] + d[i]);
        } else {
            assert(d1 == d);
        }
        assert(d1.len() == NUM_DEPOTS);
        assert(hide_outcome(d0, d1, i));
        assert forall|j: int| 0 <= j < i + 1 implies #[trigger] hide_outcome(d0, d1, j) by {
            if j < i {
                assert(hide_outcome(d0, d, j));
                assert(d1[j] == d[j]);
                assert(d1[NUM_TABLEAUS + j] == d[NUM_TABLEAUS + j]);
            }
        }
        assert forall|j: int| i + 1 <= j < NUM_TABLEAUS implies #[trigger] d1[j] == d0[j] by {
            assert(d[j] == d0[j]);
        }
        assert forall|j: int| i + 1 <= j < NUM_TABLEAUS implies #[trigger] d1[NUM_TABLEAUS + j] == d0[NUM_TABLEAUS + j] by {
            assert(d[NUM_TABLEAUS + j] == d0[NUM_TABLEAUS + j]);
        }
        lemma_auto_from_exact(d0, m1, i + 1);
    }
}

/// When no animation runs, the automatic moves hide exactly the rows that hold four
/// animals of one kind and nothing else: each such row goes on top of its own hidden
/// zone and is left empty; every other row and hidden zone keeps its cards, and so does
/// the free cell. While animations run they change nothing.
pub proof fn automatic_moves_hide_exactly_the_kinds(m: GameModel)
    requires
        m.board.depots.len() == NUM_DEPOTS,
    ensures
        !is_busy_m(m) ==> forall|j: int| 0 <= j < NUM_TABLEAUS ==> #[trigger] hide_outcome(
            m.board.depots,
            check_auto_moves_m(m).board.depots,
            j,
        ),
        check_auto_moves_m(m).board.depots[freecell_index()] == m.board.depots[freecell_index()],
        is_busy_m(m) ==> check_auto_moves_m(m) == m,
{
    if !is_busy_m(m) {
        lemma_auto_from_exact(m.board.depots, m, 0);
    }
}

} // verus!
