use vstd::prelude::*;

use crate::card::Card;

verus! {

/// Number of tableau rows, where the cards are dealt and stacked.
pub const NUM_TABLEAUS: usize = 9;

/// Number of hidden zones; zone `i` takes the complete animal stack of row `i`.
pub const NUM_SHADOWS: usize = 9;

/// Number of free cells.
pub const NUM_FREECELLS: usize = 1;

/// Number of depots on a board: tableaus, then hidden zones, then free cells.
pub const NUM_DEPOTS: usize = 19;

/// Number of cards dealt to each tableau row.
pub const CARDS_PER_TABLEAU: usize = 4;

/// The role of a depot on the board.
#[derive(Clone, Copy, Debug, PartialEq, Eq, Structural, Hash)]
pub enum DepotRole {
    Tableau,
    Shadow,
    FreeCell,
}

/// The first depot index of a role.
pub open spec fn role_start(r: DepotRole) -> nat {
    match r {
        DepotRole::Tableau => 0,
        DepotRole::Shadow => NUM_TABLEAUS as nat,
        DepotRole::FreeCell => (NUM_TABLEAUS + NUM_SHADOWS) as nat,
    }
}

/// The number of depots of a role.
pub open spec fn role_count(r: DepotRole) -> nat {
    match r {
        DepotRole::Tableau => NUM_TABLEAUS as nat,
        DepotRole::Shadow => NUM_SHADOWS as nat,
        DepotRole::FreeCell => NUM_FREECELLS as nat,
    }
}

/// The role of a depot index, if it is one of the board's depots.
pub open spec fn depot_role(depot: int) -> Option<DepotRole> {
    if 0 <= depot < NUM_TABLEAUS {
        Some(DepotRole::Tableau)
    } else if NUM_TABLEAUS <= depot < NUM_TABLEAUS + NUM_SHADOWS {
        Some(DepotRole::Shadow)
    } else if NUM_TABLEAUS + NUM_SHADOWS <= depot < NUM_DEPOTS {
        Some(DepotRole::FreeCell)
    } else {
        None
    }
}

/// Whether the cards of a depot of this role are shown face up.
pub open spec fn role_face_up(r: DepotRole) -> bool {
    r != DepotRole::Shadow
}

impl DepotRole {
    /// The number of depots of this role.
    pub fn number_of(self) -> (n: usize)
        ensures
            n == role_count(self),
    {
        match self {
            DepotRole::Tableau => NUM_TABLEAUS,
            DepotRole::Shadow => NUM_SHADOWS,
            DepotRole::FreeCell => NUM_FREECELLS,
        }
    }

    /// The depot indices of this role.
    pub fn range(self) -> (r: core::ops::Range<usize>)
        ensures
            r.start == role_start(self),
            r.end == role_start(self) + role_count(self),
    {
        match self {
            DepotRole::Tableau => 0..NUM_TABLEAUS,
            DepotRole::Shadow => NUM_TABLEAUS..NUM_TABLEAUS + NUM_SHADOWS,
            DepotRole::FreeCell => NUM_TABLEAUS + NUM_SHADOWS..NUM_DEPOTS,
        }
    }

    /// The depot index of the `i`-th depot of this role.
    pub fn id(self, i: usize) -> (d: usize)
        requires
            i < role_count(self),
        ensures
            d == role_start(self) + i,
            d < NUM_DEPOTS,
    {
        match self {
            DepotRole::Tableau => i,
            DepotRole::Shadow => NUM_TABLEAUS + i,
            DepotRole::FreeCell => NUM_TABLEAUS + NUM_SHADOWS + i,
        }
    }

    /// The role of a depot index; `None` for an index past the board.
    pub fn role(depot: usize) -> (r: Option<DepotRole>)
        ensures
            r == depot_role(depot as int),
    {
        if depot < NUM_TABLEAUS {
            Some(DepotRole::Tableau)
        } else if depot < NUM_TABLEAUS + NUM_SHADOWS {
            Some(DepotRole::Shadow)
        } else if depot < NUM_DEPOTS {
            Some(DepotRole::FreeCell)
        } else {
            None
        }
    }

    /// The role of a depot index and its position among the depots of that role.
    pub fn role_and_subindex(depot: usize) -> (r: Option<(DepotRole, usize)>)
        ensures
            match depot_role(depot as int) {
                Some(role) => r == Some((role, (depot - role_start(role)) as usize)),
                None => r is None,
            },
    {
        match DepotRole::role(depot) {
            Some(DepotRole::Tableau) => Some((DepotRole::Tableau, depot)),
            Some(DepotRole::Shadow) => Some((DepotRole::Shadow, depot - NUM_TABLEAUS)),
            Some(DepotRole::FreeCell) => Some((DepotRole::FreeCell, depot - (NUM_TABLEAUS + NUM_SHADOWS))),
            None => None,
        }
    }

    /// Whether cards in a depot of this role are shown face up (hidden zones are not).
    pub fn is_face_up(self) -> (b: bool)
        ensures
            b == role_face_up(self),
    {
        match self {
            DepotRole::Shadow => false,
            _ => true,
        }
    }
}

/// A position on the board: a depot and a place in it.
#[derive(Clone, Copy, Debug, PartialEq, Eq, Structural, Hash)]
pub struct BoardPos {
    pub depot_index: usize,
    pub card_index: usize,
}

impl BoardPos {
    pub fn new(depot_index: usize, card_index: usize) -> (p: BoardPos)
        ensures
            p == (BoardPos { depot_index, card_index }),
    {
        BoardPos { depot_index, card_index }
    }
}

/// What an animation act shows: cards moving from one position to another.
#[verifier::ext_equal]
pub struct MoveAct {
    pub cards: Seq<Card>,
    pub from: BoardPos,
    pub to: BoardPos,
}

/// A pending animation of the board.
#[derive(Clone, Debug, PartialEq, Eq)]
pub enum AnimationAct {
    Move(Vec<Card>, BoardPos, BoardPos),
}

impl View for AnimationAct {
    type V = MoveAct;

    open spec fn view(&self) -> MoveAct {
        match self {
            AnimationAct::Move(cards, from, to) => MoveAct { cards: cards@, from: *from, to: *to },
        }
    }
}

/// The cards of each depot, the selected position and the pending animations.
#[verifier::ext_equal]
pub struct BoardModel {
    pub depots: Seq<Seq<Card>>,
    pub selected: Option<BoardPos>,
    pub acts: Seq<MoveAct>,
}

/// A board: the cards of each depot, the selected position and the pending animations.
#[derive(Clone, Debug, PartialEq, Eq)]
pub struct Board {
    pub depots: Vec<Vec<Card>>,
    pub selected: Option<BoardPos>,
    pub animation_acts: Vec<AnimationAct>,
}

/// The contents of a vector of depots.
pub open spec fn depots_view(depots: Seq<Vec<Card>>) -> Seq<Seq<Card>> {
    Seq::new(depots.len(), |i: int| depots[i]@)
}

/// The contents of a vector of animation acts.
pub open spec fn acts_view(acts: Seq<AnimationAct>) -> Seq<MoveAct> {
    Seq::new(acts.len(), |i: int| acts[i]@)
}

impl View for Board {
    type V = BoardModel;

    open spec fn view(&self) -> BoardModel {
        BoardModel {
            depots: depots_view(self.depots@),
            selected: self.selected,
            acts: acts_view(self.animation_acts@),
        }
    }
}

/// The cards that a move from `from` takes: those from that place to the top of its depot.
pub open spec fn moved_cards(d: Seq<Seq<Card>>, from: BoardPos) -> Seq<Card> {
    d[from.depot_index as int].subrange(from.card_index as int, d[from.depot_index as int].len() as int)
}

/// The depots after moving the cards from `from` on top of the depot of `to`.
pub open spec fn move_depots(d: Seq<Seq<Card>>, from: BoardPos, to: BoardPos) -> Seq<Seq<Card>> {
    d.update(
        from.depot_index as int,
        d[from.depot_index as int].subrange(0, from.card_index as int),
    ).update(to.depot_index as int, d[to.depot_index as int] + moved_cards(d, from))
}

/// Whether cards can be taken from `from` and put on the depot of `to`.
pub open spec fn movable(d: Seq<Seq<Card>>, from: BoardPos, to: BoardPos) -> bool {
    &&& d.len() == NUM_DEPOTS
    &&& from.depot_index < NUM_DEPOTS
    &&& to.depot_index < NUM_DEPOTS
    &&& from.depot_index != to.depot_index
    &&& from.card_index <= d[from.depot_index as int].len()
}

/// The board after a move: cards moved, selection cleared, the move queued as an animation.
pub open spec fn board_after_move(b: BoardModel, from: BoardPos, to: BoardPos) -> BoardModel {
    BoardModel {
        depots: move_depots(b.depots, from, to),
        selected: None,
        acts: b.acts.push(MoveAct { cards: moved_cards(b.depots, from), from, to }),
    }
}

/// The depots of a board that holds no card.
pub open spec fn empty_depots() -> Seq<Seq<Card>> {
    Seq::new(NUM_DEPOTS as nat, |i: int| Seq::<Card>::empty())
}

/// The cards that tableau row `i` gets from a deal: the `i`-th group of
/// `CARDS_PER_TABLEAU` cards, as far as the deal reaches.
pub open spec fn tableau_chunk(deal: Seq<Card>, i: int) -> Seq<Card> {
    let lo = if i * CARDS_PER_TABLEAU <= deal.len() { i * CARDS_PER_TABLEAU } else { deal.len() as int };
    let hi = if i * CARDS_PER_TABLEAU + CARDS_PER_TABLEAU <= deal.len() {
        i * CARDS_PER_TABLEAU + CARDS_PER_TABLEAU
    } else {
        deal.len() as int
    };
    deal.subrange(lo, hi)
}

/// The depots right after dealing: each tableau row holds its group of the deal in
/// order, every other depot is empty.
pub open spec fn deal_layout(deal: Seq<Card>) -> Seq<Seq<Card>> {
    Seq::new(
        NUM_DEPOTS as nat,
        |i: int| if i < NUM_TABLEAUS { tableau_chunk(deal, i) } else { Seq::<Card>::empty() },
    )
}

/// A freshly dealt board.
pub open spec fn dealt_board(deal: Seq<Card>) -> BoardModel {
    BoardModel { depots: deal_layout(deal), selected: None, acts: Seq::empty() }
}

impl Board {
    /// A board with no card on it.
    pub fn empty() -> (b: Board)
        ensures
            b@ == (BoardModel { depots: empty_depots(), selected: None, acts: Seq::empty() }),
    {
        let mut depots: Vec<Vec<Card>> = Vec::new();
        for i in 0..NUM_DEPOTS
            invariant
                depots@.len() == i,
                forall|j: int| 0 <= j < i ==> (#[trigger] depots@[j])@ == Seq::<Card>::empty(),
        {
            depots.push(Vec::new());
        }
        let b = Board { depots, selected: None, animation_acts: Vec::new() };
        assert(b@.depots =~= empty_depots());
        assert(b@.acts =~= Seq::<MoveAct>::empty());
        b
    }

    /// The board at the start of a game: the deal laid out on the tableau rows.
    pub fn from_deal(deal: &Vec<Card>) -> (b: Board)
        ensures
            b@ == dealt_board(deal@),
    {
        let mut depots: Vec<Vec<Card>> = Vec::new();
        let n = deal.len();
        for i in 0..NUM_DEPOTS
            invariant
                n == deal@.len(),
                depots@.len() == i,
                forall|j: int| 0 <= j < i ==> (#[trigger] depots@[j])@ == deal_layout(deal@)[j],
        {
            let mut depot: Vec<Card> = Vec::new();
            if i < NUM_TABLEAUS {
                let lo = if i * CARDS_PER_TABLEAU <= n { i * CARDS_PER_TABLEAU } else { n };
                let hi = if i * CARDS_PER_TABLEAU + CARDS_PER_TABLEAU <= n {
                    i * CARDS_PER_TABLEAU + CARDS_PER_TABLEAU
                } else {
                    n
                };
                let mut k = lo;
                while k < hi
                    invariant
                        lo <= k <= hi <= n,
                        n == deal@.len(),
                        depot@ == deal@.subrange(lo as int, k as int),
                    decreases hi - k,
                {
                    depot.push(deal[k]);
                    k = k + 1;
                    assert(depot@ =~= deal@.subrange(lo as int, k as int));
                }
                assert(depot@ == tableau_chunk(deal@, i as int));
            } else {
                assert(depot@ =~= Seq::<Card>::empty());
            }
            depots.push(depot);
        }
        let b = Board { depots, selected: None, animation_acts: Vec::new() };
        assert(b@.depots =~= deal_layout(deal@));
        assert(b@.acts =~= Seq::<MoveAct>::empty());
        b
    }

    /// The position just above the top card of a depot.
    pub fn top_pos(&self, depot: usize) -> (p: BoardPos)
        requires
            depot < self@.depots.len(),
        ensures
            p.depot_index == depot,
            p.card_index == self@.depots[depot as int].len(),
    {
        assert(self.depots@[depot as int]@ == self@.depots[depot as int]);
        BoardPos::new(depot, self.depots[depot].len())
    }

    /// Moves the cards from `pos1` to the top of the depot of `pos2`, clears the
    /// selection and queues the move as an animation.
    pub fn do_move(&mut self, pos1: BoardPos, pos2: BoardPos)
        requires
            movable(old(self)@.depots, pos1, pos2),
        ensures
            final(self)@ == board_after_move(old(self)@, pos1, pos2),
    {
        let ghost d = self@.depots;
        let cards = self.depots[pos1.depot_index].split_off(pos1.card_index);
        let mut moving = cards.clone();
        assert(moving@ =~= cards@);
        self.depots[pos2.depot_index].append(&mut moving);
        self.selected = None;
        self.animation_acts.push(AnimationAct::Move(cards, pos1, pos2));
        assert(self@.depots =~= move_depots(d, pos1, pos2));
        assert(self@.acts =~= old(self)@.acts.push(MoveAct { cards: moved_cards(d, pos1), from: pos1, to: pos2 }));
    }

    /// Ends the pending animations.
    pub fn advance_actions(&mut self)
        ensures
            final(self)@ == (BoardModel { acts: Seq::empty(), ..old(self)@ }),
    {
        self.animation_acts.clear();
        assert(self@.acts =~= Seq::<MoveAct>::empty());
    }
}

} // verus!
