use phasellus::playboard::input::{command_for, parse_score, Command, KeyPress};
use phasellus::playboard::{
    column_for, str_terminal_len, Placement, PlayBoard, LEGEND_WIDTH, MIN_PLAYER_NAME_OFFSET,
};
use phasellus::players::{Players, ScoreInput, Scoreboard};

#[test]
fn a_new_board_has_no_players_and_the_initial_placement() {
    let board = PlayBoard::new();
    assert!(board.registry().is_empty());
    assert_eq!(
        board.current_placement(),
        Placement { x_offset: 1, y_offset: 1, username_offset: 25, width: 0 }
    );
    assert_eq!(LEGEND_WIDTH, 25);
    assert_eq!(MIN_PLAYER_NAME_OFFSET, 6);
}

#[test]
fn a_column_is_three_wider_than_the_name_and_at_least_six() {
    assert_eq!(column_for(0), 6);
    assert_eq!(column_for(2), 6);
    assert_eq!(column_for(3), 6);
    assert_eq!(column_for(4), 7);
    assert_eq!(column_for(10), 13);
    assert_eq!(column_for(usize::MAX - 3), usize::MAX);
}

#[test]
fn the_width_of_a_name_counts_columns_not_bytes() {
    assert_eq!(str_terminal_len(""), Some(6));
    assert_eq!(str_terminal_len("Al"), Some(6));
    assert_eq!(str_terminal_len("Alice"), Some(8));
    assert_eq!(str_terminal_len("Bartholomew"), Some(14));
    assert_eq!(str_terminal_len("\u{5c71}\u{7530}\u{592a}\u{90ce}"), Some(11));
    assert_eq!(str_terminal_len("\u{e9}t\u{e9}"), Some(6));
    assert_eq!(str_terminal_len("\u{201c}ab\u{201d}"), Some(9));
}

#[test]
fn layout_centres_the_table() {
    let mut board = PlayBoard::new();
    board.layout(80, 24);
    assert_eq!(
        board.current_placement(),
        Placement { x_offset: 27, y_offset: 1, username_offset: 25, width: 25 }
    );
    board.layout(100, 50);
    assert_eq!(board.current_placement().x_offset, 37);
    assert_eq!(board.current_placement().y_offset, 14);
}

#[test]
fn layout_on_a_small_screen_starts_at_the_edge() {
    let mut board = PlayBoard::new();
    board.layout(20, 10);
    assert_eq!(
        board.current_placement(),
        Placement { x_offset: 0, y_offset: 0, username_offset: 25, width: 25 }
    );
    board.layout(0, 0);
    assert_eq!(board.current_placement().x_offset, 0);
    assert_eq!(board.current_placement().y_offset, 0);
    board.layout(25, 22);
    assert_eq!(board.current_placement().x_offset, 0);
    assert_eq!(board.current_placement().y_offset, 0);
    board.layout(27, 24);
    assert_eq!(board.current_placement().x_offset, 1);
    assert_eq!(board.current_placement().y_offset, 1);
}

#[test]
fn adding_players_widens_the_table() {
    let mut board = PlayBoard::new();
    board.layout(80, 24);
    assert!(board.add_player("Alice"));
    assert_eq!(board.current_placement().width, 33);
    assert!(board.add_player("Bo"));
    assert_eq!(board.current_placement().width, 39);
    assert_eq!(board.registry().len(), 2);
    board.layout(80, 24);
    assert_eq!(
        board.current_placement(),
        Placement { x_offset: 20, y_offset: 1, username_offset: 25, width: 39 }
    );
}

#[test]
fn adding_a_player_again_widens_once_more_and_resets_the_board() {
    let mut board = PlayBoard::new();
    board.layout(80, 24);
    assert!(board.add_player("Alice"));
    assert_eq!(board.update_player_score("Alice", ScoreInput::Choice(Some(9))), Some(()));
    assert!(board.add_player("Alice"));
    assert_eq!(board.current_placement().width, 41);
    assert_eq!(board.registry().len(), 1);
    assert_eq!(
        board.registry().get_player_score(&"Alice".to_string()),
        Some(&Scoreboard::default())
    );
}

#[test]
fn layout_keeps_the_width_of_a_table_with_players() {
    let mut board = PlayBoard::new();
    let mut players = Players::new();
    players.add_player("Zed");
    board.replace_players(players);
    board.layout(80, 24);
    assert_eq!(board.current_placement().width, 0);
    assert_eq!(board.current_placement().x_offset, 40);
    assert!(board.add_player("Al"));
    assert_eq!(board.current_placement().width, 6);
}

#[test]
fn deleting_a_player_narrows_the_table() {
    let mut board = PlayBoard::new();
    board.layout(80, 24);
    board.add_player("Alice");
    board.add_player("Bob");
    assert_eq!(board.current_placement().width, 39);
    assert!(board.delete_player("Alice"));
    assert_eq!(board.current_placement().width, 31);
    assert_eq!(board.registry().len(), 1);
    assert!(board.registry().get_player_score(&"Alice".to_string()).is_none());
}

#[test]
fn deleting_an_unknown_player_still_narrows_the_table() {
    let mut board = PlayBoard::new();
    board.layout(80, 24);
    board.add_player("Alice");
    assert!(!board.delete_player("Nobody"));
    assert_eq!(board.current_placement().width, 24);
    assert_eq!(board.registry().len(), 1);
}

#[test]
fn the_width_never_falls_below_zero() {
    let mut board = PlayBoard::new();
    assert!(!board.delete_player("Alice"));
    assert_eq!(board.current_placement().width, 0);
}

#[test]
fn scores_go_to_the_registry_of_the_board() {
    let mut board = PlayBoard::new();
    board.add_player("Alice");
    assert_eq!(board.update_player_score("Bob", ScoreInput::Yacht(true)), None);
    assert_eq!(
        board.update_player_score("Alice", ScoreInput::LargeStraight(true)),
        Some(())
    );
    assert_eq!(
        board
            .registry()
            .get_player_score(&"Alice".to_string())
            .unwrap()
            .total_score,
        30
    );
    let placement = board.current_placement();
    board.clear_scores();
    assert_eq!(board.current_placement(), placement);
    assert_eq!(
        board.registry().get_player_score(&"Alice".to_string()),
        Some(&Scoreboard::default())
    );
}

#[test]
fn replacing_the_registry_keeps_the_placement() {
    let mut board = PlayBoard::new();
    board.layout(80, 24);
    board.add_player("Alice");
    let placement = board.current_placement();
    let mut loaded = Players::new();
    loaded.add_player("Bob");
    loaded.add_player("Carol");
    board.replace_players(loaded);
    assert_eq!(board.current_placement(), placement);
    assert_eq!(board.registry().len(), 2);
    assert!(board.registry().get_player_score(&"Alice".to_string()).is_none());
}

#[test]
fn columns_follow_one_another_from_the_legend() {
    let mut board = PlayBoard::new();
    board.layout(80, 24);
    assert_eq!(board.columns(), Some(Vec::new()));
    board.add_player("Alice");
    board.add_player("Bo");
    board.add_player("\u{5c71}\u{7530}");
    board.update_player_score("Bo", ScoreInput::Sixes(Some(12)));
    board.layout(80, 24);
    let placement = board.current_placement();
    assert_eq!(placement.width, 46);
    assert_eq!(placement.x_offset, 17);
    let columns = board.columns().expect("the table fits");
    assert_eq!(columns.len(), 3);
    assert_eq!(columns[0].name, "Alice");
    assert_eq!(columns[0].left, 42);
    assert_eq!(columns[0].width, 8);
    assert_eq!(columns[0].right, 50);
    assert_eq!(columns[0].board, Scoreboard::default());
    assert_eq!(columns[1].name, "Bo");
    assert_eq!(columns[1].left, 50);
    assert_eq!(columns[1].width, 6);
    assert_eq!(columns[1].board.total_score, 12);
    assert_eq!(columns[2].name, "\u{5c71}\u{7530}");
    assert_eq!(columns[2].left, 56);
    assert_eq!(columns[2].width, 7);
    assert_eq!(columns[2].right, 63);
}

#[test]
fn columns_fit_on_the_widest_screen() {
    let mut board = PlayBoard::new();
    board.add_player("Alice");
    board.layout(usize::MAX, 24);
    let placement = board.current_placement();
    assert_eq!(placement.x_offset, (usize::MAX - 8) / 2);
    let columns = board.columns().expect("the table fits");
    assert_eq!(columns[0].left, (usize::MAX - 8) / 2 + 25);
    assert_eq!(columns[0].width, 8);
}

#[test]
fn keys_are_bound_to_their_commands() {
    assert_eq!(command_for(KeyPress::Char('q')), Command::Quit);
    assert_eq!(command_for(KeyPress::Char('?')), Command::Help);
    assert_eq!(command_for(KeyPress::Char('C')), Command::ClearScores);
    assert_eq!(command_for(KeyPress::Char('a')), Command::AddPlayer);
    assert_eq!(command_for(KeyPress::Char('d')), Command::DeletePlayer);
    assert_eq!(command_for(KeyPress::Ctrl('s')), Command::Save);
    assert_eq!(command_for(KeyPress::Ctrl('l')), Command::Load);
}

#[test]
fn score_keys_choose_a_category_that_awaits_its_value() {
    assert_eq!(command_for(KeyPress::Char('1')), Command::EnterScore(ScoreInput::Ones(None)));
    assert_eq!(command_for(KeyPress::Char('2')), Command::EnterScore(ScoreInput::Twos(None)));
    assert_eq!(command_for(KeyPress::Char('3')), Command::EnterScore(ScoreInput::Threes(None)));
    assert_eq!(command_for(KeyPress::Char('4')), Command::EnterScore(ScoreInput::Fours(None)));
    assert_eq!(command_for(KeyPress::Char('5')), Command::EnterScore(ScoreInput::Fives(None)));
    assert_eq!(command_for(KeyPress::Char('6')), Command::EnterScore(ScoreInput::Sixes(None)));
    assert_eq!(command_for(KeyPress::Char('c')), Command::EnterScore(ScoreInput::Choice(None)));
    assert_eq!(
        command_for(KeyPress::Char('h')),
        Command::EnterScore(ScoreInput::FullHouse(None))
    );
    assert_eq!(
        command_for(KeyPress::Char('k')),
        Command::EnterScore(ScoreInput::FourOfKind(None))
    );
}

#[test]
fn claim_keys_claim_the_combination() {
    assert_eq!(
        command_for(KeyPress::Char('s')),
        Command::ClaimScore(ScoreInput::SmallStraight(true))
    );
    assert_eq!(
        command_for(KeyPress::Char('l')),
        Command::ClaimScore(ScoreInput::LargeStraight(true))
    );
    assert_eq!(command_for(KeyPress::Char('y')), Command::ClaimScore(ScoreInput::Yacht(true)));
}

#[test]
fn other_keys_are_ignored() {
    assert_eq!(command_for(KeyPress::Other), Command::Ignored);
    assert_eq!(command_for(KeyPress::Char('Q')), Command::Ignored);
    assert_eq!(command_for(KeyPress::Char('c').clone()), command_for(KeyPress::Char('c')));
    assert_eq!(command_for(KeyPress::Char('7')), Command::Ignored);
    assert_eq!(command_for(KeyPress::Char('0')), Command::Ignored);
    assert_eq!(command_for(KeyPress::Char('S')), Command::Ignored);
    assert_eq!(command_for(KeyPress::Ctrl('q')), Command::Ignored);
    assert_eq!(command_for(KeyPress::Ctrl('a')), Command::Ignored);
    assert_eq!(command_for(KeyPress::Ctrl('1')), Command::Ignored);
}

#[test]
fn a_typed_score_is_read_without_the_space_around_it() {
    assert_eq!(parse_score("12"), Some(12));
    assert_eq!(parse_score("  12 "), Some(12));
    assert_eq!(parse_score("\t7\n"), Some(7));
    assert_eq!(parse_score("0"), Some(0));
    assert_eq!(parse_score("007"), Some(7));
    assert_eq!(parse_score("+5"), Some(5));
    assert_eq!(parse_score("65535"), Some(65535));
}

#[test]
fn what_is_no_score_is_refused() {
    assert_eq!(parse_score(""), None);
    assert_eq!(parse_score("   "), None);
    assert_eq!(parse_score("65536"), None);
    assert_eq!(parse_score("-1"), None);
    assert_eq!(parse_score("-0"), None);
    assert_eq!(parse_score("+"), None);
    assert_eq!(parse_score("1 2"), None);
    assert_eq!(parse_score("12a"), None);
    assert_eq!(parse_score("1_000"), None);
    assert_eq!(parse_score("3.5"), None);
    assert_eq!(parse_score("true"), None);
}

#[test]
fn a_typed_score_fills_the_chosen_category() {
    let command = command_for(KeyPress::Char('6'));
    let input = match command {
        Command::EnterScore(input) => input,
        other => panic!("expected a score entry, got {:?}", other),
    };
    let score = parse_score(" 24 ").expect("a number");
    let mut board = PlayBoard::new();
    board.add_player("Alice");
    assert_eq!(board.update_player_score("Alice", input.inject(score)), Some(()));
    assert_eq!(
        board
            .registry()
            .get_player_score(&"Alice".to_string())
            .unwrap()
            .numbers[5],
        Some(24)
    );
}
