use vstd::prelude::*;

use crate::event::GamePhase;
use crate::text::{has_text, str_eq, str_has};

verus! {

/// The languages the interface speaks.
#[derive(Debug, Clone, Copy, PartialEq, Eq, Structural)]
pub enum Language {
    English,
    Portuguese,
}

/// Looks up interface texts in one language.
pub struct I18n {
    pub lang: Language,
}

/// The English text for `key`; "???" for an unknown key.
pub open spec fn english_text(key: Seq<char>) -> Seq<char> {
    if key == "app_title"@ {
        "TERMINAL TEXAS HOLD'EM ♠♥♦♣"@
    } else if key == "new_hand"@ {
        "NEW HAND"@
    } else if key == "pot"@ {
        "POT"@
    } else if key == "highest_bet"@ {
        "HIGHEST BET"@
    } else if key == "board_cards"@ {
        "BOARD CARDS:"@
    } else if key == "players"@ {
        "PLAYERS:"@
    } else if key == "folded"@ {
        "(FOLDED)"@
    } else if key == "all_in"@ {
        "(ALL-IN)"@
    } else if key == "bet"@ {
        "Bet"@
    } else if key == "recent_actions"@ {
        "[ RECENT ACTIONS ]"@
    } else if key == "your_turn"@ {
        "Your turn"@
    } else if key == "your_cards"@ {
        "Your Hole Cards:"@
    } else if key == "actions_menu"@ {
        "Actions: [1] Fold | [2] Check/Call | [3] Raise"@
    } else if key == "action_prompt"@ {
        "Action: "@
    } else if key == "raise_prompt"@ {
        "Enter amount to raise (or 'all' to go All-In): "@
    } else if key == "invalid_amt"@ {
        "Invalid amount. Defaulting to Check/Fold."@
    } else if key == "unknown_cmd"@ {
        "You entered an unknown command. Defaulting to Check/Fold."@
    } else if key == "invalid_move"@ {
        "[WARNING] Invalid move:"@
    } else if key == "bot_invalid_move"@ {
        "[WARNING] Bot invalid move:"@
    } else if key == "showdown_reveal"@ {
        "SHOWDOWN REVEAL"@
    } else if key == "folded_end"@ {
        "FOLDED."@
    } else if key == "cards_end"@ {
        "CARDS:"@
    } else if key == "final_actions"@ {
        "[ FINAL ACTIONS ]"@
    } else if key == "press_enter"@ {
        "Press [Enter] to play the next hand or [Ctrl+C] to exit..."@
    } else if key == "dealer_dealing"@ {
        "The dealer is dealing hole cards..."@
    } else if key == "dealer_revealed"@ {
        "Dealer revealed:"@
    } else if key == "folded_action"@ {
        "folded."@
    } else if key == "checked_action"@ {
        "checked."@
    } else if key == "called_action"@ {
        "called."@
    } else if key == "raised_by"@ {
        "RAISED by"@
    } else if key == "won"@ {
        "WON"@
    } else if key == "chips_with"@ {
        "CHIPS WITH"@
    } else if key == "error_start"@ {
        "Error starting game:"@
    } else if key == "phase"@ {
        "PHASE"@
    } else if key == "human_name"@ {
        "You"@
    } else if key == "bot1_name"@ {
        "Conservative Bot"@
    } else if key == "bot2_name"@ {
        "Aggressive Bot"@
    } else if key == "Not enough players to start."@ {
        "Not enough players to start."@
    } else if key == "Game is not active."@ {
        "Game is not active."@
    } else if key == "It is not this player's turn."@ {
        "It is not this player's turn."@
    } else if key == "Cannot check. You must call or raise."@ {
        "Cannot check. You must call or raise."@
    } else if key == "Not enough chips to raise that amount."@ {
        "Not enough chips to raise that amount."@
    } else if key == "win_prob"@ {
        "Win Probability:"@
    } else if key == "current_hand"@ {
        "Current Hand:"@
    } else if key == "you_lost"@ {
        "You lost all your chips!"@
    } else if key == "player_busted"@ {
        "A player was eliminated!"@
    } else if key == "you_won_game"@ {
        "You eliminated everyone and WON THE GAME!"@
    } else if key == "select_mode"@ {
        "Select a game mode:"@
    } else if key == "mode_local"@ {
        "Play Local (vs Bots)"@
    } else if key == "mode_host"@ {
        "Host LAN Game"@
    } else if key == "mode_join"@ {
        "Join LAN Game"@
    } else if key == "chips"@ {
        "CHIPS"@
    } else if key == "table_header"@ {
        "| {} | ROLE | NAME            | CHIPS   | BET      | STATUS     |"@
    } else if key == "eliminated"@ {
        "(OUT)"@
    } else if key == "menu_actions"@ {
        "Actions"@
    } else if key == "menu_fold"@ {
        "Fold"@
    } else if key == "menu_check"@ {
        "Check"@
    } else if key == "menu_call"@ {
        "Call"@
    } else if key == "menu_raise"@ {
        "Raise"@
    } else {
        "???"@
    }
}

fn english(key: &str) -> (r: &'static str)
    ensures
        r@ == english_text(key@),
{
    if str_eq(key, "app_title") {
        return "TERMINAL TEXAS HOLD'EM ♠♥♦♣";
    }
    if str_eq(key, "new_hand") {
        return "NEW HAND";
    }
    if str_eq(key, "pot") {
        return "POT";
    }
    if str_eq(key, "highest_bet") {
        return "HIGHEST BET";
    }
    if str_eq(key, "board_cards") {
        return "BOARD CARDS:";
    }
    if str_eq(key, "players") {
        return "PLAYERS:";
    }
    if str_eq(key, "folded") {
        return "(FOLDED)";
    }
    if str_eq(key, "all_in") {
        return "(ALL-IN)";
    }
    if str_eq(key, "bet") {
        return "Bet";
    }
    if str_eq(key, "recent_actions") {
        return "[ RECENT ACTIONS ]";
    }
    if str_eq(key, "your_turn") {
        return "Your turn";
    }
    if str_eq(key, "your_cards") {
        return "Your Hole Cards:";
    }
    if str_eq(key, "actions_menu") {
        return "Actions: [1] Fold | [2] Check/Call | [3] Raise";
    }
    if str_eq(key, "action_prompt") {
        return "Action: ";
    }
    if str_eq(key, "raise_prompt") {
        return "Enter amount to raise (or 'all' to go All-In): ";
    }
    if str_eq(key, "invalid_amt") {
        return "Invalid amount. Defaulting to Check/Fold.";
    }
    if str_eq(key, "unknown_cmd") {
        return "You entered an unknown command. Defaulting to Check/Fold.";
    }
    if str_eq(key, "invalid_move") {
        return "[WARNING] Invalid move:";
    }
    if str_eq(key, "bot_invalid_move") {
        return "[WARNING] Bot invalid move:";
    }
    if str_eq(key, "showdown_reveal") {
        return "SHOWDOWN REVEAL";
    }
    if str_eq(key, "folded_end") {
        return "FOLDED.";
    }
    if str_eq(key, "cards_end") {
        return "CARDS:";
    }
    if str_eq(key, "final_actions") {
        return "[ FINAL ACTIONS ]";
    }
    if str_eq(key, "press_enter") {
        return "Press [Enter] to play the next hand or [Ctrl+C] to exit...";
    }
    if str_eq(key, "dealer_dealing") {
        return "The dealer is dealing hole cards...";
    }
    if str_eq(key, "dealer_revealed") {
        return "Dealer revealed:";
    }
    if str_eq(key, "folded_action") {
        return "folded.";
    }
    if str_eq(key, "checked_action") {
        return "checked.";
    }
    if str_eq(key, "called_action") {
        return "called.";
    }
    if str_eq(key, "raised_by") {
        return "RAISED by";
    }
    if str_eq(key, "won") {
        return "WON";
    }
    if str_eq(key, "chips_with") {
        return "CHIPS WITH";
    }
    if str_eq(key, "error_start") {
        return "Error starting game:";
    }
    if str_eq(key, "phase") {
        return "PHASE";
    }
    if str_eq(key, "human_name") {
        return "You";
    }
    if str_eq(key, "bot1_name") {
        return "Conservative Bot";
    }
    if str_eq(key, "bot2_name") {
        return "Aggressive Bot";
    }
    if str_eq(key, "Not enough players to start.") {
        return "Not enough players to start.";
    }
    if str_eq(key, "Game is not active.") {
        return "Game is not active.";
    }
    if str_eq(key, "It is not this player's turn.") {
        return "It is not this player's turn.";
    }
    if str_eq(key, "Cannot check. You must call or raise.") {
        return "Cannot check. You must call or raise.";
    }
    if str_eq(key, "Not enough chips to raise that amount.") {
        return "Not enough chips to raise that amount.";
    }
    if str_eq(key, "win_prob") {
        return "Win Probability:";
    }
    if str_eq(key, "current_hand") {
        return "Current Hand:";
    }
    if str_eq(key, "you_lost") {
        return "You lost all your chips!";
    }
    if str_eq(key, "player_busted") {
        return "A player was eliminated!";
    }
    if str_eq(key, "you_won_game") {
        return "You eliminated everyone and WON THE GAME!";
    }
    if str_eq(key, "select_mode") {
        return "Select a game mode:";
    }
    if str_eq(key, "mode_local") {
        return "Play Local (vs Bots)";
    }
    if str_eq(key, "mode_host") {
        return "Host LAN Game";
    }
    if str_eq(key, "mode_join") {
        return "Join LAN Game";
    }
    if str_eq(key, "chips") {
        return "CHIPS";
    }
    if str_eq(key, "table_header") {
        return "| {} | ROLE | NAME            | CHIPS   | BET      | STATUS     |";
    }
    if str_eq(key, "eliminated") {
        return "(OUT)";
    }
    if str_eq(key, "menu_actions") {
        return "Actions";
    }
    if str_eq(key, "menu_fold") {
        return "Fold";
    }
    if str_eq(key, "menu_check") {
        return "Check";
    }
    if str_eq(key, "menu_call") {
        return "Call";
    }
    if str_eq(key, "menu_raise") {
        return "Raise";
    }
    "???"
}

/// The Portuguese text for `key`; "???" for an unknown key.
pub open spec fn portuguese_text(key: Seq<char>) -> Seq<char> {
    if key == "app_title"@ {
        "TEXAS HOLD'EM NO TERMINAL ♠♥♦♣"@
    } else if key == "new_hand"@ {
        "NOVA MÃO"@
    } else if key == "pot"@ {
        "POTE"@
    } else if key == "highest_bet"@ {
        "MAIOR APOSTA"@
    } else if key == "board_cards"@ {
        "CARTAS DA MESA:"@
    } else if key == "players"@ {
        "JOGADORES:"@
    } else if key == "folded"@ {
        "(CORREU)"@
    } else if key == "all_in"@ {
        "(TUDO-OU-NADA)"@
    } else if key == "bet"@ {
        "Aposta"@
    } else if key == "recent_actions"@ {
        "[ ÚLTIMAS AÇÕES ]"@
    } else if key == "your_turn"@ {
        "Sua vez"@
    } else if key == "your_cards"@ {
        "Suas Cartas:"@
    } else if key == "actions_menu"@ {
        "Ações: [1] Correr | [2] Mesa/Pagar | [3] Aumentar"@
    } else if key == "action_prompt"@ {
        "Ação: "@
    } else if key == "raise_prompt"@ {
        "Digite o valor para aumentar (ou 'all' para All-In): "@
    } else if key == "invalid_amt"@ {
        "Valor inválido. Assumindo Mesa/Correr."@
    } else if key == "unknown_cmd"@ {
        "Comando desconhecido. Assumindo Mesa/Correr."@
    } else if key == "invalid_move"@ {
        "[AVISO] Movimento inválido:"@
    } else if key == "bot_invalid_move"@ {
        "[AVISO] Bot tentou movimento inválido:"@
    } else if key == "showdown_reveal"@ {
        "REVELAÇÃO DO SHOWDOWN"@
    } else if key == "folded_end"@ {
        "CORREU."@
    } else if key == "cards_end"@ {
        "CARTAS:"@
    } else if key == "final_actions"@ {
        "[ AÇÕES FINAIS ]"@
    } else if key == "press_enter"@ {
        "Pressione [Enter] para a próxima mão ou [Ctrl+C] para sair..."@
    } else if key == "dealer_dealing"@ {
        "O dealer está distribuindo as cartas..."@
    } else if key == "dealer_revealed"@ {
        "Dealer revelou:"@
    } else if key == "folded_action"@ {
        "correu."@
    } else if key == "checked_action"@ {
        "deu mesa."@
    } else if key == "called_action"@ {
        "pagou a aposta."@
    } else if key == "raised_by"@ {
        "AUMENTOU em"@
    } else if key == "won"@ {
        "VENCEU"@
    } else if key == "chips_with"@ {
        "FICHAS COM"@
    } else if key == "error_start"@ {
        "Erro ao iniciar jogo:"@
    } else if key == "phase"@ {
        "FASE"@
    } else if key == "human_name"@ {
        "Você"@
    } else if key == "bot1_name"@ {
        "Bot Conservador"@
    } else if key == "bot2_name"@ {
        "Bot Agressivo"@
    } else if key == "Not enough players to start."@ {
        "Não há jogadores suficientes para começar."@
    } else if key == "Game is not active."@ {
        "O jogo não está ativo."@
    } else if key == "It is not this player's turn."@ {
        "Não é o turno deste jogador."@
    } else if key == "Cannot check. You must call or raise."@ {
        "Não pode dar Mesa (Check). Você deve Pagar (Call) ou Aumentar (Raise)."@
    } else if key == "Not enough chips to raise that amount."@ {
        "Fichas insuficientes para aumentar esse valor."@
    } else if key == "win_prob"@ {
        "Probabilidade de Vitória:"@
    } else if key == "current_hand"@ {
        "Mão Atual:"@
    } else if key == "you_lost"@ {
        "Você perdeu todas as suas fichas!"@
    } else if key == "player_busted"@ {
        "Um jogador foi eliminado da mesa!"@
    } else if key == "you_won_game"@ {
        "Você eliminou todos os bots e VENCEU O JOGO!"@
    } else if key == "select_mode"@ {
        "Escolha o modo de jogo:"@
    } else if key == "mode_local"@ {
        "Jogar Local (contra Bots)"@
    } else if key == "mode_host"@ {
        "Hospedar Jogo na LAN"@
    } else if key == "mode_join"@ {
        "Entrar em Jogo na LAN"@
    } else if key == "chips"@ {
        "FICHAS"@
    } else if key == "table_header"@ {
        "| {} | POS. | NOME            | FICHAS  | APOSTA   | ESTADO     |"@
    } else if key == "eliminated"@ {
        "(FORA)"@
    } else if key == "menu_actions"@ {
        "Ações"@
    } else if key == "menu_fold"@ {
        "Correr"@
    } else if key == "menu_check"@ {
        "Mesa"@
    } else if key == "menu_call"@ {
        "Pagar"@
    } else if key == "menu_raise"@ {
        "Aumentar"@
    } else {
        "???"@
    }
}

fn portuguese(key: &str) -> (r: &'static str)
    ensures
        r@ == portuguese_text(key@),
{
    if str_eq(key, "app_title") {
        return "TEXAS HOLD'EM NO TERMINAL ♠♥♦♣";
    }
    if str_eq(key, "new_hand") {
        return "NOVA MÃO";
    }
    if str_eq(key, "pot") {
        return "POTE";
    }
    if str_eq(key, "highest_bet") {
        return "MAIOR APOSTA";
    }
    if str_eq(key, "board_cards") {
        return "CARTAS DA MESA:";
    }
    if str_eq(key, "players") {
        return "JOGADORES:";
    }
    if str_eq(key, "folded") {
        return "(CORREU)";
    }
    if str_eq(key, "all_in") {
        return "(TUDO-OU-NADA)";
    }
    if str_eq(key, "bet") {
        return "Aposta";
    }
    if str_eq(key, "recent_actions") {
        return "[ ÚLTIMAS AÇÕES ]";
    }
    if str_eq(key, "your_turn") {
        return "Sua vez";
    }
    if str_eq(key, "your_cards") {
        return "Suas Cartas:";
    }
    if str_eq(key, "actions_menu") {
        return "Ações: [1] Correr | [2] Mesa/Pagar | [3] Aumentar";
    }
    if str_eq(key, "action_prompt") {
        return "Ação: ";
    }
    if str_eq(key, "raise_prompt") {
        return "Digite o valor para aumentar (ou 'all' para All-In): ";
    }
    if str_eq(key, "invalid_amt") {
        return "Valor inválido. Assumindo Mesa/Correr.";
    }
    if str_eq(key, "unknown_cmd") {
        return "Comando desconhecido. Assumindo Mesa/Correr.";
    }
    if str_eq(key, "invalid_move") {
        return "[AVISO] Movimento inválido:";
    }
    if str_eq(key, "bot_invalid_move") {
        return "[AVISO] Bot tentou movimento inválido:";
    }
    if str_eq(key, "showdown_reveal") {
        return "REVELAÇÃO DO SHOWDOWN";
    }
    if str_eq(key, "folded_end") {
        return "CORREU.";
    }
    if str_eq(key, "cards_end") {
        return "CARTAS:";
    }
    if str_eq(key, "final_actions") {
        return "[ AÇÕES FINAIS ]";
    }
    if str_eq(key, "press_enter") {
        return "Pressione [Enter] para a próxima mão ou [Ctrl+C] para sair...";
    }
    if str_eq(key, "dealer_dealing") {
        return "O dealer está distribuindo as cartas...";
    }
    if str_eq(key, "dealer_revealed") {
        return "Dealer revelou:";
    }
    if str_eq(key, "folded_action") {
        return "correu.";
    }
    if str_eq(key, "checked_action") {
        return "deu mesa.";
    }
    if str_eq(key, "called_action") {
        return "pagou a aposta.";
    }
    if str_eq(key, "raised_by") {
        return "AUMENTOU em";
    }
    if str_eq(key, "won") {
        return "VENCEU";
    }
    if str_eq(key, "chips_with") {
        return "FICHAS COM";
    }
    if str_eq(key, "error_start") {
        return "Erro ao iniciar jogo:";
    }
    if str_eq(key, "phase") {
        return "FASE";
    }
    if str_eq(key, "human_name") {
        return "Você";
    }
    if str_eq(key, "bot1_name") {
        return "Bot Conservador";
    }
    if str_eq(key, "bot2_name") {
        return "Bot Agressivo";
    }
    if str_eq(key, "Not enough players to start.") {
        return "Não há jogadores suficientes para começar.";
    }
    if str_eq(key, "Game is not active.") {
        return "O jogo não está ativo.";
    }
    if str_eq(key, "It is not this player's turn.") {
        return "Não é o turno deste jogador.";
    }
    if str_eq(key, "Cannot check. You must call or raise.") {
        return "Não pode dar Mesa (Check). Você deve Pagar (Call) ou Aumentar (Raise).";
    }
    if str_eq(key, "Not enough chips to raise that amount.") {
        return "Fichas insuficientes para aumentar esse valor.";
    }
    if str_eq(key, "win_prob") {
        return "Probabilidade de Vitória:";
    }
    if str_eq(key, "current_hand") {
        return "Mão Atual:";
    }
    if str_eq(key, "you_lost") {
        return "Você perdeu todas as suas fichas!";
    }
    if str_eq(key, "player_busted") {
        return "Um jogador foi eliminado da mesa!";
    }
    if str_eq(key, "you_won_game") {
        return "Você eliminou todos os bots e VENCEU O JOGO!";
    }
    if str_eq(key, "select_mode") {
        return "Escolha o modo de jogo:";
    }
    if str_eq(key, "mode_local") {
        return "Jogar Local (contra Bots)";
    }
    if str_eq(key, "mode_host") {
        return "Hospedar Jogo na LAN";
    }
    if str_eq(key, "mode_join") {
        return "Entrar em Jogo na LAN";
    }
    if str_eq(key, "chips") {
        return "FICHAS";
    }
    if str_eq(key, "table_header") {
        return "| {} | POS. | NOME            | FICHAS  | APOSTA   | ESTADO     |";
    }
    if str_eq(key, "eliminated") {
        return "(FORA)";
    }
    if str_eq(key, "menu_actions") {
        return "Ações";
    }
    if str_eq(key, "menu_fold") {
        return "Correr";
    }
    if str_eq(key, "menu_check") {
        return "Mesa";
    }
    if str_eq(key, "menu_call") {
        return "Pagar";
    }
    if str_eq(key, "menu_raise") {
        return "Aumentar";
    }
    "???"
}

/// The text for `key` in `lang`.
pub open spec fn ui_text(lang: Language, key: Seq<char>) -> Seq<char> {
    match lang {
        Language::English => english_text(key),
        Language::Portuguese => portuguese_text(key),
    }
}

/// The name of a phase in `lang`.
pub open spec fn phase_text(lang: Language, phase: GamePhase) -> Seq<char> {
    match lang {
        Language::English => match phase {
            GamePhase::WaitingForPlayers => "Waiting For Players"@,
            GamePhase::PreFlop => "Pre-Flop"@,
            GamePhase::Flop => "Flop"@,
            GamePhase::Turn => "Turn"@,
            GamePhase::River => "River"@,
            GamePhase::Showdown => "Showdown"@,
            GamePhase::Finished => "Finished"@,
        },
        Language::Portuguese => match phase {
            GamePhase::WaitingForPlayers => "Aguardando Jogadores"@,
            GamePhase::PreFlop => "Pré-Flop"@,
            GamePhase::Flop => "Flop"@,
            GamePhase::Turn => "Turn"@,
            GamePhase::River => "River"@,
            GamePhase::Showdown => "Showdown"@,
            GamePhase::Finished => "Finalizado"@,
        },
    }
}

/// The name of the hand a raw hand description (such as "FullHouse") speaks of, in `lang`;
/// the raw text itself when it names none.
pub open spec fn hand_text(lang: Language, raw: Seq<char>) -> Seq<char> {
    let names = match lang {
        Language::English => seq![
            "Everyone else folded"@,
            "High Card"@,
            "One Pair"@,
            "Two Pair"@,
            "Three of a Kind"@,
            "Straight"@,
            "Flush"@,
            "Full House"@,
            "Four of a Kind"@,
            "Straight Flush"@,
        ],
        Language::Portuguese => seq![
            "Todos os outros correram"@,
            "Carta Alta"@,
            "Um Par"@,
            "Dois Pares"@,
            "Trinca"@,
            "Sequência"@,
            "Flush"@,
            "Full House"@,
            "Quadra"@,
            "Straight Flush"@,
        ],
    };
    if has_text(raw, "Everyone else folded"@) || has_text(raw, "everyone else folded"@) {
        names[0]
    } else if has_text(raw, "HighCard"@) {
        names[1]
    } else if has_text(raw, "Pair"@) && !has_text(raw, "TwoPair"@) {
        names[2]
    } else if has_text(raw, "TwoPair"@) {
        names[3]
    } else if has_text(raw, "ThreeOfAKind"@) {
        names[4]
    } else if has_text(raw, "Straight"@) && !has_text(raw, "Flush"@) {
        names[5]
    } else if has_text(raw, "Flush"@) && !has_text(raw, "Straight"@) {
        names[6]
    } else if has_text(raw, "FullHouse"@) {
        names[7]
    } else if has_text(raw, "FourOfAKind"@) {
        names[8]
    } else if has_text(raw, "StraightFlush"@) {
        names[9]
    } else {
        raw
    }
}

/// The caption over a player's cards in `lang`.
pub open spec fn player_cards_text(lang: Language, is_human: bool, name: Seq<char>) -> Seq<char> {
    match lang {
        Language::English => if is_human {
            "Your CARDS:"@
        } else {
            name + "'s CARDS:"@
        },
        Language::Portuguese => if is_human {
            "Suas CARTAS:"@
        } else {
            "CARTAS de "@ + name + ":"@
        },
    }
}

impl I18n {
    pub fn new(lang: Language) -> (r: I18n)
        ensures
            r.lang == lang,
    {
        I18n { lang }
    }

    /// The interface text for `key`; "???" for an unknown key.
    pub fn t(&self, key: &str) -> (r: &'static str)
        ensures
            r@ == ui_text(self.lang, key@),
    {
        match self.lang {
            Language::English => english(key),
            Language::Portuguese => portuguese(key),
        }
    }

    /// The name of a phase.
    pub fn t_phase(&self, phase: &GamePhase) -> (r: &'static str)
        ensures
            r@ == phase_text(self.lang, *phase),
    {
        if self.lang == Language::English {
            match phase {
                GamePhase::WaitingForPlayers => "Waiting For Players",
                GamePhase::PreFlop => "Pre-Flop",
                GamePhase::Flop => "Flop",
                GamePhase::Turn => "Turn",
                GamePhase::River => "River",
                GamePhase::Showdown => "Showdown",
                GamePhase::Finished => "Finished",
            }
        } else {
            match phase {
                GamePhase::WaitingForPlayers => "Aguardando Jogadores",
                GamePhase::PreFlop => "Pré-Flop",
                GamePhase::Flop => "Flop",
                GamePhase::Turn => "Turn",
                GamePhase::River => "River",
                GamePhase::Showdown => "Showdown",
                GamePhase::Finished => "Finalizado",
            }
        }
    }

    /// The name of the hand that `raw` (such as "FullHouse") speaks of.
    pub fn t_hand(&self, raw: &str) -> (r: String)
        ensures
            r@ == hand_text(self.lang, raw@),
    {
        let english = self.lang == Language::English;
        let pick = |e: &str, p: &str| -> (s: String)
            ensures
                s@ == (if english {
                    e@
                } else {
                    p@
                }),
            {
                if english {
                    String::from_str(e)
                } else {
                    String::from_str(p)
                }
            };
        if str_has(raw, "Everyone else folded") || str_has(raw, "everyone else folded") {
            pick("Everyone else folded", "Todos os outros correram")
        } else if str_has(raw, "HighCard") {
            pick("High Card", "Carta Alta")
        } else if str_has(raw, "Pair") && !str_has(raw, "TwoPair") {
            pick("One Pair", "Um Par")
        } else if str_has(raw, "TwoPair") {
            pick("Two Pair", "Dois Pares")
        } else if str_has(raw, "ThreeOfAKind") {
            pick("Three of a Kind", "Trinca")
        } else if str_has(raw, "Straight") && !str_has(raw, "Flush") {
            pick("Straight", "Sequência")
        } else if str_has(raw, "Flush") && !str_has(raw, "Straight") {
            pick("Flush", "Flush")
        } else if str_has(raw, "FullHouse") {
            pick("Full House", "Full House")
        } else if str_has(raw, "FourOfAKind") {
            pick("Four of a Kind", "Quadra")
        } else if str_has(raw, "StraightFlush") {
            pick("Straight Flush", "Straight Flush")
        } else {
            String::from_str(raw)
        }
    }

    /// The caption over a player's cards.
    pub fn t_player_cards(&self, is_human: bool, player_name: &str) -> (r: String)
        ensures
            r@ == player_cards_text(self.lang, is_human, player_name@),
    {
        match self.lang {
            Language::English => {
                if is_human {
                    String::from_str("Your CARDS:")
                } else {
                    String::from_str(player_name).concat("'s CARDS:")
                }
            },
            Language::Portuguese => {
                if is_human {
                    String::from_str("Suas CARTAS:")
                } else {
                    String::from_str("CARTAS de ").concat(player_name).concat(":")
                }
            },
        }
    }
}

/// Both languages know the same keys: a key has a text in English exactly when it has
/// one in Portuguese.
pub proof fn law_languages_know_the_same_keys(key: Seq<char>)
    ensures
        (english_text(key) == "???"@) == (portuguese_text(key) == "???"@),
{
        reveal_strlit("???");
    if key == "app_title"@ {
        reveal_strlit("TERMINAL TEXAS HOLD'EM ♠♥♦♣");
        reveal_strlit("TEXAS HOLD'EM NO TERMINAL ♠♥♦♣");
        assert("TERMINAL TEXAS HOLD'EM ♠♥♦♣"@[0] != '?' || "TERMINAL TEXAS HOLD'EM ♠♥♦♣"@.len() != 3);
        assert("TEXAS HOLD'EM NO TERMINAL ♠♥♦♣"@[0] != '?' || "TEXAS HOLD'EM NO TERMINAL ♠♥♦♣"@.len() != 3);
        return;
    }
    if key == "new_hand"@ {
        reveal_strlit("NEW HAND");
        reveal_strlit("NOVA MÃO");
        assert("NEW HAND"@[0] != '?' || "NEW HAND"@.len() != 3);
        assert("NOVA MÃO"@[0] != '?' || "NOVA MÃO"@.len() != 3);
        return;
    }
    if key == "pot"@ {
        reveal_strlit("POT");
        reveal_strlit("POTE");
        assert("POT"@[0] != '?' || "POT"@.len() != 3);
        assert("POTE"@[0] != '?' || "POTE"@.len() != 3);
        return;
    }
    if key == "highest_bet"@ {
        reveal_strlit("HIGHEST BET");
        reveal_strlit("MAIOR APOSTA");
        assert("HIGHEST BET"@[0] != '?' || "HIGHEST BET"@.len() != 3);
        assert("MAIOR APOSTA"@[0] != '?' || "MAIOR APOSTA"@.len() != 3);
        return;
    }
    if key == "board_cards"@ {
        reveal_strlit("BOARD CARDS:");
        reveal_strlit("CARTAS DA MESA:");
        assert("BOARD CARDS:"@[0] != '?' || "BOARD CARDS:"@.len() != 3);
        assert("CARTAS DA MESA:"@[0] != '?' || "CARTAS DA MESA:"@.len() != 3);
        return;
    }
    if key == "players"@ {
        reveal_strlit("PLAYERS:");
        reveal_strlit("JOGADORES:");
        assert("PLAYERS:"@[0] != '?' || "PLAYERS:"@.len() != 3);
        assert("JOGADORES:"@[0] != '?' || "JOGADORES:"@.len() != 3);
        return;
    }
    if key == "folded"@ {
        reveal_strlit("(FOLDED)");
        reveal_strlit("(CORREU)");
        assert("(FOLDED)"@[0] != '?' || "(FOLDED)"@.len() != 3);
        assert("(CORREU)"@[0] != '?' || "(CORREU)"@.len() != 3);
        return;
    }
    if key == "all_in"@ {
        reveal_strlit("(ALL-IN)");
        reveal_strlit("(TUDO-OU-NADA)");
        assert("(ALL-IN)"@[0] != '?' || "(ALL-IN)"@.len() != 3);
        assert("(TUDO-OU-NADA)"@[0] != '?' || "(TUDO-OU-NADA)"@.len() != 3);
        return;
    }
    if key == "bet"@ {
        reveal_strlit("Bet");
        reveal_strlit("Aposta");
        assert("Bet"@[0] != '?' || "Bet"@.len() != 3);
        assert("Aposta"@[0] != '?' || "Aposta"@.len() != 3);
        return;
    }
    if key == "recent_actions"@ {
        reveal_strlit("[ RECENT ACTIONS ]");
        reveal_strlit("[ ÚLTIMAS AÇÕES ]");
        assert("[ RECENT ACTIONS ]"@[0] != '?' || "[ RECENT ACTIONS ]"@.len() != 3);
        assert("[ ÚLTIMAS AÇÕES ]"@[0] != '?' || "[ ÚLTIMAS AÇÕES ]"@.len() != 3);
        return;
    }
    if key == "your_turn"@ {
        reveal_strlit("Your turn");
        reveal_strlit("Sua vez");
        assert("Your turn"@[0] != '?' || "Your turn"@.len() != 3);
        assert("Sua vez"@[0] != '?' || "Sua vez"@.len() != 3);
        return;
    }
    if key == "your_cards"@ {
        reveal_strlit("Your Hole Cards:");
        reveal_strlit("Suas Cartas:");
        assert("Your Hole Cards:"@[0] != '?' || "Your Hole Cards:"@.len() != 3);
        assert("Suas Cartas:"@[0] != '?' || "Suas Cartas:"@.len() != 3);
        return;
    }
    if key == "actions_menu"@ {
        reveal_strlit("Actions: [1] Fold | [2] Check/Call | [3] Raise");
        reveal_strlit("Ações: [1] Correr | [2] Mesa/Pagar | [3] Aumentar");
        assert("Actions: [1] Fold | [2] Check/Call | [3] Raise"@[0] != '?' || "Actions: [1] Fold | [2] Check/Call | [3] Raise"@.len() != 3);
        assert("Ações: [1] Correr | [2] Mesa/Pagar | [3] Aumentar"@[0] != '?' || "Ações: [1] Correr | [2] Mesa/Pagar | [3] Aumentar"@.len() != 3);
        return;
    }
    if key == "action_prompt"@ {
        reveal_strlit("Action: ");
        reveal_strlit("Ação: ");
        assert("Action: "@[0] != '?' || "Action: "@.len() != 3);
        assert("Ação: "@[0] != '?' || "Ação: "@.len() != 3);
        return;
    }
    if key == "raise_prompt"@ {
        reveal_strlit("Enter amount to raise (or 'all' to go All-In): ");
        reveal_strlit("Digite o valor para aumentar (ou 'all' para All-In): ");
        assert("Enter amount to raise (or 'all' to go All-In): "@[0] != '?' || "Enter amount to raise (or 'all' to go All-In): "@.len() != 3);
        assert("Digite o valor para aumentar (ou 'all' para All-In): "@[0] != '?' || "Digite o valor para aumentar (ou 'all' para All-In): "@.len() != 3);
        return;
    }
    if key == "invalid_amt"@ {
        reveal_strlit("Invalid amount. Defaulting to Check/Fold.");
        reveal_strlit("Valor inválido. Assumindo Mesa/Correr.");
        assert("Invalid amount. Defaulting to Check/Fold."@[0] != '?' || "Invalid amount. Defaulting to Check/Fold."@.len() != 3);
        assert("Valor inválido. Assumindo Mesa/Correr."@[0] != '?' || "Valor inválido. Assumindo Mesa/Correr."@.len() != 3);
        return;
    }
    if key == "unknown_cmd"@ {
        reveal_strlit("You entered an unknown command. Defaulting to Check/Fold.");
        reveal_strlit("Comando desconhecido. Assumindo Mesa/Correr.");
        assert("You entered an unknown command. Defaulting to Check/Fold."@[0] != '?' || "You entered an unknown command. Defaulting to Check/Fold."@.len() != 3);
        assert("Comando desconhecido. Assumindo Mesa/Correr."@[0] != '?' || "Comando desconhecido. Assumindo Mesa/Correr."@.len() != 3);
        return;
    }
    if key == "invalid_move"@ {
        reveal_strlit("[WARNING] Invalid move:");
        reveal_strlit("[AVISO] Movimento inválido:");
        assert("[WARNING] Invalid move:"@[0] != '?' || "[WARNING] Invalid move:"@.len() != 3);
        assert("[AVISO] Movimento inválido:"@[0] != '?' || "[AVISO] Movimento inválido:"@.len() != 3);
        return;
    }
    if key == "bot_invalid_move"@ {
        reveal_strlit("[WARNING] Bot invalid move:");
        reveal_strlit("[AVISO] Bot tentou movimento inválido:");
        assert("[WARNING] Bot invalid move:"@[0] != '?' || "[WARNING] Bot invalid move:"@.len() != 3);
        assert("[AVISO] Bot tentou movimento inválido:"@[0] != '?' || "[AVISO] Bot tentou movimento inválido:"@.len() != 3);
        return;
    }
    if key == "showdown_reveal"@ {
        reveal_strlit("SHOWDOWN REVEAL");
        reveal_strlit("REVELAÇÃO DO SHOWDOWN");
        assert("SHOWDOWN REVEAL"@[0] != '?' || "SHOWDOWN REVEAL"@.len() != 3);
        assert("REVELAÇÃO DO SHOWDOWN"@[0] != '?' || "REVELAÇÃO DO SHOWDOWN"@.len() != 3);
        return;
    }
    if key == "folded_end"@ {
        reveal_strlit("FOLDED.");
        reveal_strlit("CORREU.");
        assert("FOLDED."@[0] != '?' || "FOLDED."@.len() != 3);
        assert("CORREU."@[0] != '?' || "CORREU."@.len() != 3);
        return;
    }
    if key == "cards_end"@ {
        reveal_strlit("CARDS:");
        reveal_strlit("CARTAS:");
        assert("CARDS:"@[0] != '?' || "CARDS:"@.len() != 3);
        assert("CARTAS:"@[0] != '?' || "CARTAS:"@.len() != 3);
        return;
    }
    if key == "final_actions"@ {
        reveal_strlit("[ FINAL ACTIONS ]");
        reveal_strlit("[ AÇÕES FINAIS ]");
        assert("[ FINAL ACTIONS ]"@[0] != '?' || "[ FINAL ACTIONS ]"@.len() != 3);
        assert("[ AÇÕES FINAIS ]"@[0] != '?' || "[ AÇÕES FINAIS ]"@.len() != 3);
        return;
    }
    if key == "press_enter"@ {
        reveal_strlit("Press [Enter] to play the next hand or [Ctrl+C] to exit...");
        reveal_strlit("Pressione [Enter] para a próxima mão ou [Ctrl+C] para sair...");
        assert("Press [Enter] to play the next hand or [Ctrl+C] to exit..."@[0] != '?' || "Press [Enter] to play the next hand or [Ctrl+C] to exit..."@.len() != 3);
        assert("Pressione [Enter] para a próxima mão ou [Ctrl+C] para sair..."@[0] != '?' || "Pressione [Enter] para a próxima mão ou [Ctrl+C] para sair..."@.len() != 3);
        return;
    }
    if key == "dealer_dealing"@ {
        reveal_strlit("The dealer is dealing hole cards...");
        reveal_strlit("O dealer está distribuindo as cartas...");
        assert("The dealer is dealing hole cards..."@[0] != '?' || "The dealer is dealing hole cards..."@.len() != 3);
        assert("O dealer está distribuindo as cartas..."@[0] != '?' || "O dealer está distribuindo as cartas..."@.len() != 3);
        return;
    }
    if key == "dealer_revealed"@ {
        reveal_strlit("Dealer revealed:");
        reveal_strlit("Dealer revelou:");
        assert("Dealer revealed:"@[0] != '?' || "Dealer revealed:"@.len() != 3);
        assert("Dealer revelou:"@[0] != '?' || "Dealer revelou:"@.len() != 3);
        return;
    }
    if key == "folded_action"@ {
        reveal_strlit("folded.");
        reveal_strlit("correu.");
        assert("folded."@[0] != '?' || "folded."@.len() != 3);
        assert("correu."@[0] != '?' || "correu."@.len() != 3);
        return;
    }
    if key == "checked_action"@ {
        reveal_strlit("checked.");
        reveal_strlit("deu mesa.");
        assert("checked."@[0] != '?' || "checked."@.len() != 3);
        assert("deu mesa."@[0] != '?' || "deu mesa."@.len() != 3);
        return;
    }
    if key == "called_action"@ {
        reveal_strlit("called.");
        reveal_strlit("pagou a aposta.");
        assert("called."@[0] != '?' || "called."@.len() != 3);
        assert("pagou a aposta."@[0] != '?' || "pagou a aposta."@.len() != 3);
        return;
    }
    if key == "raised_by"@ {
        reveal_strlit("RAISED by");
        reveal_strlit("AUMENTOU em");
        assert("RAISED by"@[0] != '?' || "RAISED by"@.len() != 3);
        assert("AUMENTOU em"@[0] != '?' || "AUMENTOU em"@.len() != 3);
        return;
    }
    if key == "won"@ {
        reveal_strlit("WON");
        reveal_strlit("VENCEU");
        assert("WON"@[0] != '?' || "WON"@.len() != 3);
        assert("VENCEU"@[0] != '?' || "VENCEU"@.len() != 3);
        return;
    }
    if key == "chips_with"@ {
        reveal_strlit("CHIPS WITH");
        reveal_strlit("FICHAS COM");
        assert("CHIPS WITH"@[0] != '?' || "CHIPS WITH"@.len() != 3);
        assert("FICHAS COM"@[0] != '?' || "FICHAS COM"@.len() != 3);
        return;
    }
    if key == "error_start"@ {
        reveal_strlit("Error starting game:");
        reveal_strlit("Erro ao iniciar jogo:");
        assert("Error starting game:"@[0] != '?' || "Error starting game:"@.len() != 3);
        assert("Erro ao iniciar jogo:"@[0] != '?' || "Erro ao iniciar jogo:"@.len() != 3);
        return;
    }
    if key == "phase"@ {
        reveal_strlit("PHASE");
        reveal_strlit("FASE");
        assert("PHASE"@[0] != '?' || "PHASE"@.len() != 3);
        assert("FASE"@[0] != '?' || "FASE"@.len() != 3);
        return;
    }
    if key == "human_name"@ {
        reveal_strlit("You");
        reveal_strlit("Você");
        assert("You"@[0] != '?' || "You"@.len() != 3);
        assert("Você"@[0] != '?' || "Você"@.len() != 3);
        return;
    }
    if key == "bot1_name"@ {
        reveal_strlit("Conservative Bot");
        reveal_strlit("Bot Conservador");
        assert("Conservative Bot"@[0] != '?' || "Conservative Bot"@.len() != 3);
        assert("Bot Conservador"@[0] != '?' || "Bot Conservador"@.len() != 3);
        return;
    }
    if key == "bot2_name"@ {
        reveal_strlit("Aggressive Bot");
        reveal_strlit("Bot Agressivo");
        assert("Aggressive Bot"@[0] != '?' || "Aggressive Bot"@.len() != 3);
        assert("Bot Agressivo"@[0] != '?' || "Bot Agressivo"@.len() != 3);
        return;
    }
    if key == "Not enough players to start."@ {
        reveal_strlit("Not enough players to start.");
        reveal_strlit("Não há jogadores suficientes para começar.");
        assert("Not enough players to start."@[0] != '?' || "Not enough players to start."@.len() != 3);
        assert("Não há jogadores suficientes para começar."@[0] != '?' || "Não há jogadores suficientes para começar."@.len() != 3);
        return;
    }
    if key == "Game is not active."@ {
        reveal_strlit("Game is not active.");
        reveal_strlit("O jogo não está ativo.");
        assert("Game is not active."@[0] != '?' || "Game is not active."@.len() != 3);
        assert("O jogo não está ativo."@[0] != '?' || "O jogo não está ativo."@.len() != 3);
        return;
    }
    if key == "It is not this player's turn."@ {
        reveal_strlit("It is not this player's turn.");
        reveal_strlit("Não é o turno deste jogador.");
        assert("It is not this player's turn."@[0] != '?' || "It is not this player's turn."@.len() != 3);
        assert("Não é o turno deste jogador."@[0] != '?' || "Não é o turno deste jogador."@.len() != 3);
        return;
    }
    if key == "Cannot check. You must call or raise."@ {
        reveal_strlit("Cannot check. You must call or raise.");
        reveal_strlit("Não pode dar Mesa (Check). Você deve Pagar (Call) ou Aumentar (Raise).");
        assert("Cannot check. You must call or raise."@[0] != '?' || "Cannot check. You must call or raise."@.len() != 3);
        assert("Não pode dar Mesa (Check). Você deve Pagar (Call) ou Aumentar (Raise)."@[0] != '?' || "Não pode dar Mesa (Check). Você deve Pagar (Call) ou Aumentar (Raise)."@.len() != 3);
        return;
    }
    if key == "Not enough chips to raise that amount."@ {
        reveal_strlit("Not enough chips to raise that amount.");
        reveal_strlit("Fichas insuficientes para aumentar esse valor.");
        assert("Not enough chips to raise that amount."@[0] != '?' || "Not enough chips to raise that amount."@.len() != 3);
        assert("Fichas insuficientes para aumentar esse valor."@[0] != '?' || "Fichas insuficientes para aumentar esse valor."@.len() != 3);
        return;
    }
    if key == "win_prob"@ {
        reveal_strlit("Win Probability:");
        reveal_strlit("Probabilidade de Vitória:");
        assert("Win Probability:"@[0] != '?' || "Win Probability:"@.len() != 3);
        assert("Probabilidade de Vitória:"@[0] != '?' || "Probabilidade de Vitória:"@.len() != 3);
        return;
    }
    if key == "current_hand"@ {
        reveal_strlit("Current Hand:");
        reveal_strlit("Mão Atual:");
        assert("Current Hand:"@[0] != '?' || "Current Hand:"@.len() != 3);
        assert("Mão Atual:"@[0] != '?' || "Mão Atual:"@.len() != 3);
        return;
    }
    if key == "you_lost"@ {
        reveal_strlit("You lost all your chips!");
        reveal_strlit("Você perdeu todas as suas fichas!");
        assert("You lost all your chips!"@[0] != '?' || "You lost all your chips!"@.len() != 3);
        assert("Você perdeu todas as suas fichas!"@[0] != '?' || "Você perdeu todas as suas fichas!"@.len() != 3);
        return;
    }
    if key == "player_busted"@ {
        reveal_strlit("A player was eliminated!");
        reveal_strlit("Um jogador foi eliminado da mesa!");
        assert("A player was eliminated!"@[0] != '?' || "A player was eliminated!"@.len() != 3);
        assert("Um jogador foi eliminado da mesa!"@[0] != '?' || "Um jogador foi eliminado da mesa!"@.len() != 3);
        return;
    }
    if key == "you_won_game"@ {
        reveal_strlit("You eliminated everyone and WON THE GAME!");
        reveal_strlit("Você eliminou todos os bots e VENCEU O JOGO!");
        assert("You eliminated everyone and WON THE GAME!"@[0] != '?' || "You eliminated everyone and WON THE GAME!"@.len() != 3);
        assert("Você eliminou todos os bots e VENCEU O JOGO!"@[0] != '?' || "Você eliminou todos os bots e VENCEU O JOGO!"@.len() != 3);
        return;
    }
    if key == "select_mode"@ {
        reveal_strlit("Select a game mode:");
        reveal_strlit("Escolha o modo de jogo:");
        assert("Select a game mode:"@[0] != '?' || "Select a game mode:"@.len() != 3);
        assert("Escolha o modo de jogo:"@[0] != '?' || "Escolha o modo de jogo:"@.len() != 3);
        return;
    }
    if key == "mode_local"@ {
        reveal_strlit("Play Local (vs Bots)");
        reveal_strlit("Jogar Local (contra Bots)");
        assert("Play Local (vs Bots)"@[0] != '?' || "Play Local (vs Bots)"@.len() != 3);
        assert("Jogar Local (contra Bots)"@[0] != '?' || "Jogar Local (contra Bots)"@.len() != 3);
        return;
    }
    if key == "mode_host"@ {
        reveal_strlit("Host LAN Game");
        reveal_strlit("Hospedar Jogo na LAN");
        assert("Host LAN Game"@[0] != '?' || "Host LAN Game"@.len() != 3);
        assert("Hospedar Jogo na LAN"@[0] != '?' || "Hospedar Jogo na LAN"@.len() != 3);
        return;
    }
    if key == "mode_join"@ {
        reveal_strlit("Join LAN Game");
        reveal_strlit("Entrar em Jogo na LAN");
        assert("Join LAN Game"@[0] != '?' || "Join LAN Game"@.len() != 3);
        assert("Entrar em Jogo na LAN"@[0] != '?' || "Entrar em Jogo na LAN"@.len() != 3);
        return;
    }
    if key == "chips"@ {
        reveal_strlit("CHIPS");
        reveal_strlit("FICHAS");
        assert("CHIPS"@[0] != '?' || "CHIPS"@.len() != 3);
        assert("FICHAS"@[0] != '?' || "FICHAS"@.len() != 3);
        return;
    }
    if key == "table_header"@ {
        reveal_strlit("| {} | ROLE | NAME            | CHIPS   | BET      | STATUS     |");
        reveal_strlit("| {} | POS. | NOME            | FICHAS  | APOSTA   | ESTADO     |");
        assert("| {} | ROLE | NAME            | CHIPS   | BET      | STATUS     |"@[0] != '?' || "| {} | ROLE | NAME            | CHIPS   | BET      | STATUS     |"@.len() != 3);
        assert("| {} | POS. | NOME            | FICHAS  | APOSTA   | ESTADO     |"@[0] != '?' || "| {} | POS. | NOME            | FICHAS  | APOSTA   | ESTADO     |"@.len() != 3);
        return;
    }
    if key == "eliminated"@ {
        reveal_strlit("(OUT)");
        reveal_strlit("(FORA)");
        assert("(OUT)"@[0] != '?' || "(OUT)"@.len() != 3);
        assert("(FORA)"@[0] != '?' || "(FORA)"@.len() != 3);
        return;
    }
    if key == "menu_actions"@ {
        reveal_strlit("Actions");
        reveal_strlit("Ações");
        assert("Actions"@[0] != '?' || "Actions"@.len() != 3);
        assert("Ações"@[0] != '?' || "Ações"@.len() != 3);
        return;
    }
    if key == "menu_fold"@ {
        reveal_strlit("Fold");
        reveal_strlit("Correr");
        assert("Fold"@[0] != '?' || "Fold"@.len() != 3);
        assert("Correr"@[0] != '?' || "Correr"@.len() != 3);
        return;
    }
    if key == "menu_check"@ {
        reveal_strlit("Check");
        reveal_strlit("Mesa");
        assert("Check"@[0] != '?' || "Check"@.len() != 3);
        assert("Mesa"@[0] != '?' || "Mesa"@.len() != 3);
        return;
    }
    if key == "menu_call"@ {
        reveal_strlit("Call");
        reveal_strlit("Pagar");
        assert("Call"@[0] != '?' || "Call"@.len() != 3);
        assert("Pagar"@[0] != '?' || "Pagar"@.len() != 3);
        return;
    }
    if key == "menu_raise"@ {
        reveal_strlit("Raise");
        reveal_strlit("Aumentar");
        assert("Raise"@[0] != '?' || "Raise"@.len() != 3);
        assert("Aumentar"@[0] != '?' || "Aumentar"@.len() != 3);
        return;
    }

}

/// The words the log uses for the four actions, in both languages.
pub proof fn lemma_action_words()
    ensures
        ui_text(Language::English, "folded_action"@) == "folded."@,
        ui_text(Language::English, "checked_action"@) == "checked."@,
        ui_text(Language::English, "called_action"@) == "called."@,
        ui_text(Language::English, "raised_by"@) == "RAISED by"@,
        ui_text(Language::Portuguese, "folded_action"@) == "correu."@,
        ui_text(Language::Portuguese, "checked_action"@) == "deu mesa."@,
        ui_text(Language::Portuguese, "called_action"@) == "pagou a aposta."@,
        ui_text(Language::Portuguese, "raised_by"@) == "AUMENTOU em"@,
{
    reveal_strlit("app_title");
    reveal_strlit("new_hand");
    reveal_strlit("pot");
    reveal_strlit("highest_bet");
    reveal_strlit("board_cards");
    reveal_strlit("players");
    reveal_strlit("folded");
    reveal_strlit("all_in");
    reveal_strlit("bet");
    reveal_strlit("recent_actions");
    reveal_strlit("your_turn");
    reveal_strlit("your_cards");
    reveal_strlit("actions_menu");
    reveal_strlit("action_prompt");
    reveal_strlit("raise_prompt");
    reveal_strlit("invalid_amt");
    reveal_strlit("unknown_cmd");
    reveal_strlit("invalid_move");
    reveal_strlit("bot_invalid_move");
    reveal_strlit("showdown_reveal");
    reveal_strlit("folded_end");
    reveal_strlit("cards_end");
    reveal_strlit("final_actions");
    reveal_strlit("press_enter");
    reveal_strlit("dealer_dealing");
    reveal_strlit("dealer_revealed");
    reveal_strlit("folded_action");
    reveal_strlit("checked_action");
    reveal_strlit("called_action");
    reveal_strlit("raised_by");
    assert("app_title"@.len() != "folded_action"@.len());
    assert("new_hand"@.len() != "folded_action"@.len());
    assert("pot"@.len() != "folded_action"@.len());
    assert("highest_bet"@.len() != "folded_action"@.len());
    assert("board_cards"@.len() != "folded_action"@.len());
    assert("players"@.len() != "folded_action"@.len());
    assert("folded"@.len() != "folded_action"@.len());
    assert("all_in"@.len() != "folded_action"@.len());
    assert("bet"@.len() != "folded_action"@.len());
    assert("recent_actions"@.len() != "folded_action"@.len());
    assert("your_turn"@.len() != "folded_action"@.len());
    assert("your_cards"@.len() != "folded_action"@.len());
    assert("actions_menu"@.len() != "folded_action"@.len());
    assert("action_prompt"@[0] != "folded_action"@[0]);
    assert("raise_prompt"@.len() != "folded_action"@.len());
    assert("invalid_amt"@.len() != "folded_action"@.len());
    assert("unknown_cmd"@.len() != "folded_action"@.len());
    assert("invalid_move"@.len() != "folded_action"@.len());
    assert("bot_invalid_move"@.len() != "folded_action"@.len());
    assert("showdown_reveal"@.len() != "folded_action"@.len());
    assert("folded_end"@.len() != "folded_action"@.len());
    assert("cards_end"@.len() != "folded_action"@.len());
    assert("final_actions"@[1] != "folded_action"@[1]);
    assert("press_enter"@.len() != "folded_action"@.len());
    assert("dealer_dealing"@.len() != "folded_action"@.len());
    assert("dealer_revealed"@.len() != "folded_action"@.len());
    assert("app_title"@.len() != "checked_action"@.len());
    assert("new_hand"@.len() != "checked_action"@.len());
    assert("pot"@.len() != "checked_action"@.len());
    assert("highest_bet"@.len() != "checked_action"@.len());
    assert("board_cards"@.len() != "checked_action"@.len());
    assert("players"@.len() != "checked_action"@.len());
    assert("folded"@.len() != "checked_action"@.len());
    assert("all_in"@.len() != "checked_action"@.len());
    assert("bet"@.len() != "checked_action"@.len());
    assert("recent_actions"@[0] != "checked_action"@[0]);
    assert("your_turn"@.len() != "checked_action"@.len());
    assert("your_cards"@.len() != "checked_action"@.len());
    assert("actions_menu"@.len() != "checked_action"@.len());
    assert("action_prompt"@.len() != "checked_action"@.len());
    assert("raise_prompt"@.len() != "checked_action"@.len());
    assert("invalid_amt"@.len() != "checked_action"@.len());
    assert("unknown_cmd"@.len() != "checked_action"@.len());
    assert("invalid_move"@.len() != "checked_action"@.len());
    assert("bot_invalid_move"@.len() != "checked_action"@.len());
    assert("showdown_reveal"@.len() != "checked_action"@.len());
    assert("folded_end"@.len() != "checked_action"@.len());
    assert("cards_end"@.len() != "checked_action"@.len());
    assert("final_actions"@.len() != "checked_action"@.len());
    assert("press_enter"@.len() != "checked_action"@.len());
    assert("dealer_dealing"@[0] != "checked_action"@[0]);
    assert("dealer_revealed"@.len() != "checked_action"@.len());
    assert("folded_action"@.len() != "checked_action"@.len());
    assert("app_title"@.len() != "called_action"@.len());
    assert("new_hand"@.len() != "called_action"@.len());
    assert("pot"@.len() != "called_action"@.len());
    assert("highest_bet"@.len() != "called_action"@.len());
    assert("board_cards"@.len() != "called_action"@.len());
    assert("players"@.len() != "called_action"@.len());
    assert("folded"@.len() != "called_action"@.len());
    assert("all_in"@.len() != "called_action"@.len());
    assert("bet"@.len() != "called_action"@.len());
    assert("recent_actions"@.len() != "called_action"@.len());
    assert("your_turn"@.len() != "called_action"@.len());
    assert("your_cards"@.len() != "called_action"@.len());
    assert("actions_menu"@.len() != "called_action"@.len());
    assert("action_prompt"@[0] != "called_action"@[0]);
    assert("raise_prompt"@.len() != "called_action"@.len());
    assert("invalid_amt"@.len() != "called_action"@.len());
    assert("unknown_cmd"@.len() != "called_action"@.len());
    assert("invalid_move"@.len() != "called_action"@.len());
    assert("bot_invalid_move"@.len() != "called_action"@.len());
    assert("showdown_reveal"@.len() != "called_action"@.len());
    assert("folded_end"@.len() != "called_action"@.len());
    assert("cards_end"@.len() != "called_action"@.len());
    assert("final_actions"@[0] != "called_action"@[0]);
    assert("press_enter"@.len() != "called_action"@.len());
    assert("dealer_dealing"@.len() != "called_action"@.len());
    assert("dealer_revealed"@.len() != "called_action"@.len());
    assert("folded_action"@[0] != "called_action"@[0]);
    assert("checked_action"@.len() != "called_action"@.len());
    assert("app_title"@[0] != "raised_by"@[0]);
    assert("new_hand"@.len() != "raised_by"@.len());
    assert("pot"@.len() != "raised_by"@.len());
    assert("highest_bet"@.len() != "raised_by"@.len());
    assert("board_cards"@.len() != "raised_by"@.len());
    assert("players"@.len() != "raised_by"@.len());
    assert("folded"@.len() != "raised_by"@.len());
    assert("all_in"@.len() != "raised_by"@.len());
    assert("bet"@.len() != "raised_by"@.len());
    assert("recent_actions"@.len() != "raised_by"@.len());
    assert("your_turn"@[0] != "raised_by"@[0]);
    assert("your_cards"@.len() != "raised_by"@.len());
    assert("actions_menu"@.len() != "raised_by"@.len());
    assert("action_prompt"@.len() != "raised_by"@.len());
    assert("raise_prompt"@.len() != "raised_by"@.len());
    assert("invalid_amt"@.len() != "raised_by"@.len());
    assert("unknown_cmd"@.len() != "raised_by"@.len());
    assert("invalid_move"@.len() != "raised_by"@.len());
    assert("bot_invalid_move"@.len() != "raised_by"@.len());
    assert("showdown_reveal"@.len() != "raised_by"@.len());
    assert("folded_end"@.len() != "raised_by"@.len());
    assert("cards_end"@[0] != "raised_by"@[0]);
    assert("final_actions"@.len() != "raised_by"@.len());
    assert("press_enter"@.len() != "raised_by"@.len());
    assert("dealer_dealing"@.len() != "raised_by"@.len());
    assert("dealer_revealed"@.len() != "raised_by"@.len());
    assert("folded_action"@.len() != "raised_by"@.len());
    assert("checked_action"@.len() != "raised_by"@.len());
    assert("called_action"@.len() != "raised_by"@.len());
}

} // verus!
