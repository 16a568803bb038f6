use vstd::prelude::*;

use crate::card::{copy_cards, Card};

verus! {

/// The stages of one hand.
#[derive(Debug, Clone, Copy, PartialEq, Eq, Structural)]
pub enum GamePhase {
    WaitingForPlayers,
    PreFlop,
    Flop,
    Turn,
    River,
    Showdown,
    Finished,
}

/// What a player does on their turn. `Raise(x)` raises by `x` above the amount needed to call.
#[derive(Debug, Clone, PartialEq, Eq, Structural)]
pub enum PlayerAction {
    Fold,
    Check,
    Call,
    Raise(u32),
}

/// What happened, in the order it happened.
#[derive(Debug, Clone)]
pub enum GameEvent {
    PlayerJoined(usize, String),
    GameStarted,
    PhaseChanged(GamePhase),
    CommunityCardsRevealed(Vec<Card>),
    PlayerActed(usize, PlayerAction),
    /// Player id, amount, and the name of the winning hand.
    PotAwarded(usize, u32, String),
}

/// A `GameEvent` with its card list and texts as sequences.
pub enum EventView {
    PlayerJoined(usize, Seq<char>),
    GameStarted,
    PhaseChanged(GamePhase),
    CommunityCardsRevealed(Seq<Card>),
    PlayerActed(usize, PlayerAction),
    PotAwarded(usize, u32, Seq<char>),
}

impl View for GameEvent {
    type V = EventView;

    open spec fn view(&self) -> EventView {
        match self {
            GameEvent::PlayerJoined(id, name) => EventView::PlayerJoined(*id, name@),
            GameEvent::GameStarted => EventView::GameStarted,
            GameEvent::PhaseChanged(p) => EventView::PhaseChanged(*p),
            GameEvent::CommunityCardsRevealed(cs) => EventView::CommunityCardsRevealed(cs@),
            GameEvent::PlayerActed(id, a) => EventView::PlayerActed(*id, *a),
            GameEvent::PotAwarded(id, amount, name) => EventView::PotAwarded(*id, *amount, name@),
        }
    }
}

impl PlayerAction {
    /// A copy of this action.
    pub fn copy(&self) -> (r: PlayerAction)
        ensures
            r == *self,
    {
        match self {
            PlayerAction::Fold => PlayerAction::Fold,
            PlayerAction::Check => PlayerAction::Check,
            PlayerAction::Call => PlayerAction::Call,
            PlayerAction::Raise(x) => PlayerAction::Raise(*x),
        }
    }
}

impl GameEvent {
    /// A copy of this event.
    pub fn copy(&self) -> (r: GameEvent)
        ensures
            r@ == self@,
    {
        match self {
            GameEvent::PlayerJoined(id, name) => GameEvent::PlayerJoined(*id, name.clone()),
            GameEvent::GameStarted => GameEvent::GameStarted,
            GameEvent::PhaseChanged(p) => GameEvent::PhaseChanged(*p),
            GameEvent::CommunityCardsRevealed(cs) => GameEvent::CommunityCardsRevealed(
                copy_cards(cs),
            ),
            GameEvent::PlayerActed(id, a) => GameEvent::PlayerActed(*id, a.copy()),
            GameEvent::PotAwarded(id, amount, name) => GameEvent::PotAwarded(
                *id,
                *amount,
                name.clone(),
            ),
        }
    }
}

/// A copy of a list of events.
pub fn copy_events(evs: &Vec<GameEvent>) -> (r: Vec<GameEvent>)
    ensures
        events_view(r@) == events_view(evs@),
{
    let mut r: Vec<GameEvent> = Vec::new();
    let mut i: usize = 0;
    while i < evs.len()
        invariant
            i <= evs@.len(),
            r@.len() == i,
            forall|j: int| 0 <= j < i ==> (#[trigger] r@[j])@ == evs@[j]@,
        decreases evs@.len() - i,
    {
        r.push(evs[i].copy());
        i = i + 1;
    }
    assert(events_view(r@) =~= events_view(evs@));
    r
}

/// The views of a list of events.
pub open spec fn events_view(evs: Seq<GameEvent>) -> Seq<EventView> {
    evs.map_values(|e: GameEvent| e@)
}

} // verus!
