use vstd::prelude::*;

use crate::card::{rank_text, suit_text, Card};
use crate::event::{events_view, EventView, GameEvent, PlayerAction};
use crate::i18n::{hand_text, phase_text, ui_text, Language, I18n};
use crate::player::PlayerModel;
use crate::state::GameState;
use crate::net_messages::texts_view;
use crate::text::{decimal, decimal_text, str_eq, to_upper, uppercase};

verus! {

/// The texts of a log, in order.
pub open spec fn log_view(log: Seq<String>) -> Seq<Seq<char>> {
    texts_view(log)
}

/// The name of the first player from seat `k` on whose id is `id`; "Unknown" if none.
pub open spec fn name_from(ps: Seq<PlayerModel>, id: usize, k: int) -> Seq<char>
    decreases ps.len() - k,
{
    if k >= ps.len() || k < 0 {
        "Unknown"@
    } else if ps[k].id == id {
        ps[k].name
    } else {
        name_from(ps, id, k + 1)
    }
}

pub open spec fn name_of(ps: Seq<PlayerModel>, id: usize) -> Seq<char> {
    name_from(ps, id, 0)
}

pub open spec fn card_text(c: Card) -> Seq<char> {
    rank_text(c.rank) + suit_text(c.suit)
}

/// The cards written one after another, separated by spaces.
pub open spec fn cards_text(cs: Seq<Card>) -> Seq<char>
    decreases cs.len(),
{
    if cs.len() == 0 {
        Seq::empty()
    } else if cs.len() == 1 {
        card_text(cs[0])
    } else {
        cards_text(cs.drop_last()) + " "@ + card_text(cs.last())
    }
}

/// The line announcing a pot, given the winner's name and the hand name already in
/// upper case.
pub open spec fn award_text(lang: Language, name: Seq<char>, amount: u32, hand_upper: Seq<char>) -> Seq<char> {
    "*** "@ + name + " "@ + ui_text(lang, "won"@) + " "@ + decimal_text(amount as nat) + " "@
        + ui_text(lang, "chips_with"@) + " "@ + hand_upper + "! ***"@
}

/// The lines one event adds to the log.
pub open spec fn event_lines(e: EventView, ps: Seq<PlayerModel>, lang: Language) -> Seq<Seq<char>> {
    match e {
        EventView::GameStarted => seq![ui_text(lang, "dealer_dealing"@)],
        EventView::PhaseChanged(ph) => seq![
            "--- "@ + ui_text(lang, "phase"@) + " "@ + phase_text(lang, ph) + " ---"@,
        ],
        EventView::CommunityCardsRevealed(cs) => seq![
            ui_text(lang, "dealer_revealed"@) + " "@ + cards_text(cs),
        ],
        EventView::PlayerActed(id, a) => {
            let name = name_of(ps, id);
            match a {
                PlayerAction::Fold => seq![name + " "@ + ui_text(lang, "folded_action"@)],
                PlayerAction::Check => seq![name + " "@ + ui_text(lang, "checked_action"@)],
                PlayerAction::Call => seq![name + " "@ + ui_text(lang, "called_action"@)],
                PlayerAction::Raise(amt) => seq![
                    name + " "@ + ui_text(lang, "raised_by"@) + " "@ + decimal_text(amt as nat),
                ],
            }
        },
        EventView::PotAwarded(id, amount, reason) => {
            let name = name_of(ps, id);
            if reason == "Everyone else folded"@ {
                seq![
                    "*** "@ + name + " "@ + ui_text(lang, "won"@) + " "@ + decimal_text(
                        amount as nat,
                    ) + " "@ + ui_text(lang, "chips"@) + "! ***"@,
                ]
            } else {
                seq![award_text(lang, name, amount, uppercase(hand_text(lang, reason)))]
            }
        },
        EventView::PlayerJoined(..) => Seq::empty(),
    }
}

/// The lines the events add to the log, in order.
pub open spec fn events_lines(evs: Seq<EventView>, ps: Seq<PlayerModel>, lang: Language) -> Seq<Seq<char>>
    decreases evs.len(),
{
    if evs.len() == 0 {
        Seq::empty()
    } else {
        events_lines(evs.drop_last(), ps, lang) + event_lines(evs.last(), ps, lang)
    }
}

/// The name of the first player with this id, or "Unknown".
fn player_name<'a>(game: &'a GameState, id: usize) -> (r: &'a str)
    ensures
        r@ == name_of(game@.players, id),
{
    let n = game.players.len();
    let ghost ps = game@.players;
    let mut i: usize = 0;
    while i < n
        invariant
            n == ps.len(),
            ps == game@.players,
            i <= n,
            name_of(ps, id) == name_from(ps, id, i as int),
        decreases n - i,
    {
        if game.players[i].id == id {
            return game.players[i].name.as_str();
        }
        i = i + 1;
    }
    "Unknown"
}

/// The cards written one after another, separated by spaces.
fn cards_line(cs: &Vec<Card>) -> (r: String)
    ensures
        r@ == cards_text(cs@),
{
    let mut s = String::new();
    let mut i: usize = 0;
    while i < cs.len()
        invariant
            i <= cs@.len(),
            s@ == cards_text(cs@.take(i as int)),
        decreases cs@.len() - i,
    {
        let c = cs[i].to_string();
        proof {
            assert(cs@.take(i + 1).drop_last() =~= cs@.take(i as int));
        }
        if i == 0 {
            s = s.concat(c.as_str());
            assert(cs@.take(1) =~= seq![cs@[0]]);
        } else {
            s = s.concat(" ").concat(c.as_str());
        }
        i = i + 1;
        assert(s@ =~= cards_text(cs@.take(i as int)));
    }
    assert(cs@.take(cs@.len() as int) =~= cs@);
    s
}

/// The line announcing a pot won at the showdown, from the winner's name and the name of
/// the hand already in upper case.
pub fn award_line(i18n: &I18n, name: &str, amount: u32, hand_upper: &str) -> (r: String)
    ensures
        r@ == award_text(i18n.lang, name@, amount, hand_upper@),
{
    let amount_text = decimal(amount);
    let r = String::from_str("*** ").concat(name).concat(" ").concat(i18n.t("won")).concat(
        " ",
    ).concat(amount_text.as_str()).concat(" ").concat(i18n.t("chips_with")).concat(" ").concat(
        hand_upper,
    ).concat("! ***");
    r
}

/// Appends the lines describing one event to `log`.
fn log_event(event: &GameEvent, game: &GameState, log: &mut Vec<String>, i18n: &I18n)
    ensures
        log_view(final(log)@) == log_view(old(log)@) + event_lines(event@, game@.players, i18n.lang),
{
    let ghost l0 = log@;
    match event {
        GameEvent::GameStarted => {
            log.push(String::from_str(i18n.t("dealer_dealing")));
        },
        GameEvent::PhaseChanged(phase) => {
            log.push(
                String::from_str("--- ").concat(i18n.t("phase")).concat(" ").concat(
                    i18n.t_phase(phase),
                ).concat(" ---"),
            );
        },
        GameEvent::CommunityCardsRevealed(cards) => {
            let cards_str = cards_line(cards);
            log.push(
                String::from_str(i18n.t("dealer_revealed")).concat(" ").concat(cards_str.as_str()),
            );
        },
        GameEvent::PlayerActed(id, action) => {
            let name = player_name(game, *id);
            match action {
                PlayerAction::Fold => log.push(
                    String::from_str(name).concat(" ").concat(i18n.t("folded_action")),
                ),
                PlayerAction::Check => log.push(
                    String::from_str(name).concat(" ").concat(i18n.t("checked_action")),
                ),
                PlayerAction::Call => log.push(
                    String::from_str(name).concat(" ").concat(i18n.t("called_action")),
                ),
                PlayerAction::Raise(amt) => {
                    let amt_text = decimal(*amt);
                    log.push(
                        String::from_str(name).concat(" ").concat(i18n.t("raised_by")).concat(
                            " ",
                        ).concat(amt_text.as_str()),
                    );
                },
            }
        },
        GameEvent::PotAwarded(player_id, amount, reason) => {
            let name = player_name(game, *player_id);
            if str_eq(reason.as_str(), "Everyone else folded") {
                let amount_text = decimal(*amount);
                log.push(
                    String::from_str("*** ").concat(name).concat(" ").concat(i18n.t("won")).concat(
                        " ",
                    ).concat(amount_text.as_str()).concat(" ").concat(i18n.t("chips")).concat(
                        "! ***",
                    ),
                );
            } else {
                let hand = i18n.t_hand(reason.as_str());
                let hand_upper = to_upper(hand.as_str());
                log.push(award_line(i18n, name, *amount, hand_upper.as_str()));
            }
        },
        GameEvent::PlayerJoined(..) => {},
    }
    assert(log_view(log@) =~= log_view(l0) + event_lines(event@, game@.players, i18n.lang));
}

/// Appends to `log` the lines that describe `events`, in order, naming players as they
/// sit in `game`.
pub fn process_events(events: &[GameEvent], game: &GameState, log: &mut Vec<String>, i18n: &I18n)
    ensures
        log_view(final(log)@) == log_view(old(log)@) + events_lines(
            events_view(events@),
            game@.players,
            i18n.lang,
        ),
{
    let ghost l0 = log@;
    let mut i: usize = 0;
    while i < events.len()
        invariant
            i <= events@.len(),
            log_view(log@) == log_view(l0) + events_lines(
                events_view(events@.take(i as int)),
                game@.players,
                i18n.lang,
            ),
        decreases events@.len() - i,
    {
        log_event(&events[i], game, log, i18n);
        proof {
            assert(events_view(events@.take(i + 1)).drop_last() =~= events_view(
                events@.take(i as int),
            ));
        }
        i = i + 1;
        assert(log_view(log@) =~= log_view(l0) + events_lines(
            events_view(events@.take(i as int)),
            game@.players,
            i18n.lang,
        ));
    }
    assert(events@.take(events@.len() as int) =~= events@);
}

/// The word the log puts after a player's name for an action of kind `a` in `lang`.
pub open spec fn action_word(lang: Language, a: PlayerAction) -> Seq<char> {
    match (lang, a) {
        (Language::English, PlayerAction::Fold) => "folded."@,
        (Language::English, PlayerAction::Check) => "checked."@,
        (Language::English, PlayerAction::Call) => "called."@,
        (Language::English, PlayerAction::Raise(_)) => "RAISED by"@,
        (Language::Portuguese, PlayerAction::Fold) => "correu."@,
        (Language::Portuguese, PlayerAction::Check) => "deu mesa."@,
        (Language::Portuguese, PlayerAction::Call) => "pagou a aposta."@,
        (Language::Portuguese, PlayerAction::Raise(_)) => "AUMENTOU em"@,
    }
}

/// Two actions of the same kind (raises of any amounts count as one kind).
pub open spec fn same_kind(a: PlayerAction, b: PlayerAction) -> bool {
    match (a, b) {
        (PlayerAction::Fold, PlayerAction::Fold) => true,
        (PlayerAction::Check, PlayerAction::Check) => true,
        (PlayerAction::Call, PlayerAction::Call) => true,
        (PlayerAction::Raise(_), PlayerAction::Raise(_)) => true,
        _ => false,
    }
}

/// The log tells what a player did: one line, the player's name, a space and the word for
/// the action (a fold "folded.", a check "checked.", a call "called.", a raise "RAISED by"
/// and the amount; in Portuguese "correu.", "deu mesa.", "pagou a aposta.", "AUMENTOU em");
/// actions of different kinds never get the same line.
pub proof fn law_actions_are_logged_by_name(
    ps: Seq<PlayerModel>,
    id: usize,
    lang: Language,
    a: PlayerAction,
    b: PlayerAction,
)
    ensures
        event_lines(EventView::PlayerActed(id, a), ps, lang) == seq![
            name_of(ps, id) + " "@ + action_word(lang, a) + match a {
                PlayerAction::Raise(x) => " "@ + decimal_text(x as nat),
                _ => Seq::empty(),
            },
        ],
        !same_kind(a, b) ==> event_lines(EventView::PlayerActed(id, a), ps, lang) != event_lines(
            EventView::PlayerActed(id, b),
            ps,
            lang,
        ),
{
    crate::i18n::lemma_action_words();
    reveal_strlit("folded.");
    reveal_strlit("checked.");
    reveal_strlit("called.");
    reveal_strlit("RAISED by");
    reveal_strlit("correu.");
    reveal_strlit("deu mesa.");
    reveal_strlit("pagou a aposta.");
    reveal_strlit("AUMENTOU em");
    reveal_strlit(" ");
    let name = name_of(ps, id);
    let la = event_lines(EventView::PlayerActed(id, a), ps, lang)[0];
    let lb = event_lines(EventView::PlayerActed(id, b), ps, lang)[0];
    let k: int = name.len() as int + 1;
    assert(la =~= name + " "@ + action_word(lang, a) + match a {
        PlayerAction::Raise(x) => " "@ + decimal_text(x as nat),
        _ => Seq::empty(),
    });
    if !same_kind(a, b) {
        assert(la[k] == action_word(lang, a)[0]);
        assert(lb[k] == action_word(lang, b)[0]);
        assert(la[k + 1] == action_word(lang, a)[1]);
        assert(lb[k + 1] == action_word(lang, b)[1]);
        assert(la[k] != lb[k] || la[k + 1] != lb[k + 1]);
    }
}

} // verus!
