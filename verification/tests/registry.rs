use phasellus::players::{Players, ScoreInput, Scoreboard};

fn names(players: &Players) -> Vec<String> {
    players.iter().into_iter().map(|(name, _)| name).collect()
}

#[test]
fn a_new_registry_is_empty() {
    let players = Players::new();
    assert!(players.is_empty());
    assert_eq!(players.len(), 0);
    assert!(players.iter().is_empty());
    assert!(players.get_player_score(&"Alice".to_string()).is_none());
}

#[test]
fn an_added_player_starts_with_a_blank_board() {
    let mut players = Players::new();
    players.add_player("Alice");
    assert!(!players.is_empty());
    assert_eq!(players.len(), 1);
    assert_eq!(
        players.get_player_score(&"Alice".to_string()),
        Some(&Scoreboard::default())
    );
    assert!(players.get_player_score(&"alice".to_string()).is_none());
}

#[test]
fn adding_a_player_again_resets_the_board() {
    let inputs = [
        ScoreInput::Ones(Some(4)),
        ScoreInput::Sixes(Some(30)),
        ScoreInput::Choice(Some(23)),
        ScoreInput::FullHouse(Some(19)),
        ScoreInput::FourOfKind(Some(22)),
        ScoreInput::SmallStraight(true),
        ScoreInput::LargeStraight(false),
        ScoreInput::Yacht(true),
    ];
    for input in inputs {
        let mut players = Players::new();
        players.add_player("X");
        players.add_player("Y");
        assert_eq!(players.calculate_score("X", input), Some(()));
        assert_ne!(
            players.get_player_score(&"X".to_string()),
            Some(&Scoreboard::default())
        );
        players.add_player("X");
        let board = *players.get_player_score(&"X".to_string()).unwrap();
        assert_eq!(board, Scoreboard::default());
        assert_eq!(board.total_score, 0);
        assert_eq!(players.len(), 2);
        assert_eq!(names(&players), vec!["X".to_string(), "Y".to_string()]);
    }
}

#[test]
fn removing_an_unknown_player_changes_nothing() {
    let mut players = Players::new();
    players.add_player("Alice");
    players.add_player("Bob");
    players.calculate_score("Bob", ScoreInput::Twos(Some(8)));
    let before = players.iter();
    assert!(!players.del_player("Carol"));
    assert_eq!(players.len(), 2);
    assert_eq!(players.iter(), before);
}

#[test]
fn removing_a_player_takes_exactly_that_one_away() {
    let mut players = Players::new();
    players.add_player("Alice");
    players.add_player("Bob");
    players.add_player("Carol");
    players.calculate_score("Carol", ScoreInput::Yacht(true));
    assert!(players.del_player("Bob"));
    assert_eq!(players.len(), 2);
    assert!(players.get_player_score(&"Bob".to_string()).is_none());
    assert_eq!(names(&players), vec!["Alice".to_string(), "Carol".to_string()]);
    assert_eq!(
        players.get_player_score(&"Carol".to_string()).unwrap().total_score,
        50
    );
    assert!(!players.del_player("Bob"));
    assert_eq!(players.len(), 2);
    assert!(players.del_player("Alice"));
    assert!(players.del_player("Carol"));
    assert!(players.is_empty());
}

#[test]
fn scoring_an_unknown_player_fails_and_creates_nobody() {
    let mut players = Players::new();
    assert_eq!(players.calculate_score("Bob", ScoreInput::Ones(Some(3))), None);
    assert!(players.is_empty());

    players.add_player("Alice");
    players.calculate_score("Alice", ScoreInput::Choice(Some(11)));
    let before = players.iter();
    assert_eq!(players.calculate_score("Bob", ScoreInput::Yacht(true)), None);
    assert_eq!(players.iter(), before);
    assert_eq!(players.len(), 1);
    assert!(players.get_player_score(&"Bob".to_string()).is_none());
}

#[test]
fn scoring_touches_only_the_named_player() {
    let mut players = Players::new();
    players.add_player("Alice");
    players.add_player("Bob");
    players.calculate_score("Alice", ScoreInput::Fours(Some(12)));
    assert_eq!(
        players.get_player_score(&"Bob".to_string()),
        Some(&Scoreboard::default())
    );
    assert_eq!(
        players.get_player_score(&"Alice".to_string()).unwrap().numbers[3],
        Some(12)
    );
}

#[test]
fn clearing_keeps_the_players_and_blanks_every_board() {
    let mut players = Players::new();
    players.add_player("Alice");
    players.add_player("Bob");
    players.add_player("Carol");
    players.calculate_score("Alice", ScoreInput::Sixes(Some(63)));
    players.calculate_score("Bob", ScoreInput::LargeStraight(true));
    let before = names(&players);
    players.clear_score();
    assert_eq!(names(&players), before);
    assert_eq!(players.len(), 3);
    for (_, board) in players.iter() {
        assert_eq!(board, Scoreboard::default());
    }
}

#[test]
fn clearing_an_empty_registry_leaves_it_empty() {
    let mut players = Players::new();
    players.clear_score();
    assert!(players.is_empty());
}

#[test]
fn iter_lists_every_player_once_in_the_order_of_joining() {
    let mut players = Players::new();
    players.add_player("Carol");
    players.add_player("Alice");
    players.add_player("Bob");
    players.add_player("Alice");
    players.calculate_score("Bob", ScoreInput::Threes(Some(9)));
    let listed = players.iter();
    assert_eq!(listed.len(), 3);
    assert_eq!(listed[0].0, "Carol");
    assert_eq!(listed[1].0, "Alice");
    assert_eq!(listed[2].0, "Bob");
    assert_eq!(listed[0].1, Scoreboard::default());
    assert_eq!(listed[2].1.total_score, 9);
}

#[test]
fn the_mutable_board_writes_through_to_the_registry() {
    let mut players = Players::new();
    players.add_player("Alice");
    assert!(players.get_player_score_mut(&"Bob".to_string()).is_none());
    {
        let board = players.get_player_score_mut(&"Alice".to_string()).unwrap();
        assert_eq!(*board, Scoreboard::default());
        board.choice = Some(17);
        board.recompute();
    }
    let board = players.get_player_score(&"Alice".to_string()).unwrap();
    assert_eq!(board.choice, Some(17));
    assert_eq!(board.total_score, 17);
    assert_eq!(players.len(), 1);
}

#[test]
fn listing_and_collecting_gives_the_registry_back() {
    let mut players = Players::new();
    players.add_player("Alice");
    players.add_player("Bob");
    players.calculate_score("Alice", ScoreInput::Sixes(Some(18)));
    players.calculate_score("Alice", ScoreInput::SmallStraight(true));
    players.calculate_score("Bob", ScoreInput::FullHouse(Some(21)));
    let listed = players.iter();
    let again = Players::from_entries(listed.clone());
    assert_eq!(again.iter(), listed);
    assert_eq!(again.len(), players.len());
}

#[test]
fn collecting_keeps_the_last_board_of_a_repeated_name() {
    let mut first = Scoreboard::default();
    first.apply(ScoreInput::Choice(Some(5)));
    let mut second = Scoreboard::default();
    second.apply(ScoreInput::Choice(Some(9)));
    let players = Players::from_entries(vec![
        ("Alice".to_string(), first),
        ("Bob".to_string(), Scoreboard::default()),
        ("Alice".to_string(), second),
    ]);
    assert_eq!(players.len(), 2);
    assert_eq!(players.get_player_score(&"Alice".to_string()), Some(&second));
    assert_eq!(
        players.get_player_score(&"Bob".to_string()),
        Some(&Scoreboard::default())
    );
    assert!(Players::from_entries(Vec::new()).is_empty());
}
