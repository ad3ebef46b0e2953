use rkub::{Board, Color, Coord, Game, Group, Piece};

fn board_of(cells: &[(i32, i32, Color, u8)]) -> Board {
    let mut grid = Board::new();
    for (x, y, color, num) in cells {
        grid.insert(Coord(*x, *y), Piece::new(*color, *num));
    }
    grid
}

fn game_with(cells: &[(i32, i32, Color, u8)]) -> Game {
    let mut game = Game::new();
    game.set_board(board_of(cells));
    game
}

#[test]
fn test_board_valid() {
    let mut grid = Board::new();

    grid.insert(Coord(10, 8), Piece::new(Color::Yellow, 2));
    grid.insert(Coord(11, 8), Piece::new(Color::Yellow, 3));
    grid.insert(Coord(12, 8), Piece::new(Color::Yellow, 4));

    let mut game = Game::new();
    game.set_board(grid);

    let (is_valid, groups) = game.is_valid_board();

    println!("{:?}", groups);

    assert!(is_valid);
    assert_eq!(
        groups,
        &[Group(vec![
            Piece::new(Color::Yellow, 2),
            Piece::new(Color::Yellow, 3),
            Piece::new(Color::Yellow, 4)
        ])]
    );
}

#[test]
fn combo_of_three_colors_is_valid() {
    let game = game_with(&[(0, 0, Color::Red, 5), (1, 0, Color::Blue, 5), (2, 0, Color::Black, 5)]);
    let (is_valid, groups) = game.is_valid_board();
    assert!(is_valid);
    assert_eq!(groups.len(), 1);
    assert!(groups[0].is_valid_combo());
    assert!(!groups[0].is_valid_run());
}

#[test]
fn two_pieces_are_no_group() {
    let game = game_with(&[(0, 0, Color::Red, 5), (1, 0, Color::Red, 5)]);
    let (is_valid, groups) = game.is_valid_board();
    assert!(!is_valid);
    assert_eq!(groups, vec![Group(vec![Piece::new(Color::Red, 5), Piece::new(Color::Red, 5)])]);
}

#[test]
fn mixed_group_is_invalid() {
    let game = game_with(&[(0, 0, Color::Red, 5), (1, 0, Color::Blue, 5), (2, 0, Color::Blue, 6)]);
    let (is_valid, groups) = game.is_valid_board();
    assert!(!is_valid);
    assert_eq!(groups.len(), 1);
    assert!(!groups[0].is_valid_run());
    assert!(!groups[0].is_valid_combo());
}

#[test]
fn empty_board_is_valid_without_groups() {
    let game = game_with(&[]);
    let (is_valid, groups) = game.is_valid_board();
    assert!(is_valid);
    assert!(groups.is_empty());
}

#[test]
fn groups_come_row_by_row_and_left_to_right() {
    let game = game_with(&[
        (5, 2, Color::Red, 1),
        (6, 2, Color::Red, 2),
        (7, 2, Color::Red, 3),
        (0, 1, Color::Blue, 7),
        (1, 1, Color::Blue, 8),
        (2, 1, Color::Blue, 9),
        (4, 1, Color::Black, 4),
        (5, 1, Color::Red, 4),
        (6, 1, Color::Yellow, 4),
    ]);
    let (is_valid, groups) = game.is_valid_board();
    assert!(is_valid);
    assert_eq!(
        groups,
        vec![
            Group(vec![
                Piece::new(Color::Blue, 7),
                Piece::new(Color::Blue, 8),
                Piece::new(Color::Blue, 9)
            ]),
            Group(vec![
                Piece::new(Color::Black, 4),
                Piece::new(Color::Red, 4),
                Piece::new(Color::Yellow, 4)
            ]),
            Group(vec![
                Piece::new(Color::Red, 1),
                Piece::new(Color::Red, 2),
                Piece::new(Color::Red, 3)
            ]),
        ]
    );
}

#[test]
fn a_column_is_no_group() {
    let game = game_with(&[(0, 0, Color::Red, 1), (0, 1, Color::Red, 2), (0, 2, Color::Red, 3)]);
    let (is_valid, groups) = game.is_valid_board();
    assert!(!is_valid);
    assert_eq!(groups.len(), 3);
}

#[test]
fn one_bad_group_spoils_the_board() {
    let game = game_with(&[
        (0, 0, Color::Red, 1),
        (1, 0, Color::Red, 2),
        (2, 0, Color::Red, 3),
        (9, 9, Color::Blue, 1),
    ]);
    let (is_valid, groups) = game.is_valid_board();
    assert!(!is_valid);
    assert_eq!(groups.len(), 2);
}

#[test]
fn board_at_the_edge_of_the_grid() {
    let game = game_with(&[
        (i32::MAX - 2, i32::MAX, Color::Red, 1),
        (i32::MAX - 1, i32::MAX, Color::Red, 2),
        (i32::MAX, i32::MAX, Color::Red, 3),
    ]);
    let (is_valid, groups) = game.is_valid_board();
    assert!(is_valid);
    assert_eq!(groups.len(), 1);
    let game = game_with(&[
        (i32::MIN, i32::MIN, Color::Red, 1),
        (i32::MIN + 1, i32::MIN, Color::Red, 2),
        (i32::MIN + 2, i32::MIN, Color::Red, 4),
    ]);
    assert!(!game.is_valid_board().0);
}

#[test]
fn first_non_joker_is_found() {
    let group = Group(vec![Piece::joker(), Piece::joker(), Piece::new(Color::Red, 3)]);
    assert_eq!(group.first_non_joker(), 2);
    let group = Group(vec![Piece::new(Color::Red, 3), Piece::joker()]);
    assert_eq!(group.first_non_joker(), 0);
    let group = Group(vec![Piece::joker(), Piece::new(Color::Black, 13), Piece::new(Color::Red, 1)]);
    assert_eq!(group.first_non_joker(), 1);
}

#[test]
fn run_with_joker_in_the_gap() {
    let group = Group(vec![Piece::new(Color::Red, 3), Piece::joker(), Piece::new(Color::Red, 5)]);
    assert!(group.is_valid_run());
    assert!(group.is_valid());
    let group = Group(vec![Piece::new(Color::Red, 3), Piece::joker(), Piece::new(Color::Red, 4)]);
    assert!(!group.is_valid_run());
    let group = Group(vec![Piece::new(Color::Red, 3), Piece::joker(), Piece::new(Color::Blue, 5)]);
    assert!(!group.is_valid_run());
}

#[test]
fn run_behind_leading_jokers() {
    let group = Group(vec![Piece::joker(), Piece::new(Color::Blue, 9), Piece::new(Color::Blue, 10)]);
    assert!(group.is_valid_run());
    let group = Group(vec![Piece::joker(), Piece::joker(), Piece::new(Color::Blue, 9)]);
    assert!(group.is_valid_run());
    assert!(group.is_valid_combo());
    assert!(group.is_valid());
}

#[test]
fn run_does_not_wrap_round_the_largest_number() {
    let group = Group(vec![
        Piece::new(Color::Red, 254),
        Piece::new(Color::Red, 255),
        Piece::new(Color::Red, 0),
    ]);
    assert!(!group.is_valid_run());
}

#[test]
fn combo_refuses_a_color_twice() {
    let group = Group(vec![
        Piece::new(Color::Red, 5),
        Piece::new(Color::Blue, 5),
        Piece::new(Color::Red, 5),
    ]);
    assert!(!group.is_valid_combo());
    let group = Group(vec![
        Piece::new(Color::Red, 5),
        Piece::new(Color::Red, 5),
        Piece::new(Color::Blue, 5),
    ]);
    assert!(!group.is_valid_combo());
    assert!(!group.is_valid());
}

#[test]
fn combo_takes_its_number_from_the_head_of_the_group() {
    let group = Group(vec![Piece::joker(), Piece::new(Color::Red, 5), Piece::new(Color::Blue, 5)]);
    assert!(!group.is_valid_combo());
    let group = Group(vec![Piece::joker(), Piece::new(Color::Red, 5), Piece::joker()]);
    assert!(group.is_valid_combo());
    let group = Group(vec![
        Piece::new(Color::Red, 5),
        Piece::joker(),
        Piece::new(Color::Blue, 5),
        Piece::new(Color::Black, 5),
    ]);
    assert!(group.is_valid_combo());
    let group = Group(vec![Piece::new(Color::Red, 5), Piece::new(Color::Blue, 6)]);
    assert!(!group.is_valid_combo());
}

#[test]
fn short_groups_are_invalid() {
    assert!(!Group(vec![]).is_valid());
    assert!(!Group(vec![Piece::new(Color::Red, 1)]).is_valid());
    assert!(!Group(vec![Piece::new(Color::Red, 1), Piece::new(Color::Red, 2)]).is_valid());
    assert!(!Group(vec![Piece::joker(), Piece::joker()]).is_valid());
    assert!(Group(vec![Piece::joker(), Piece::joker(), Piece::joker()]).is_valid());
}

#[test]
fn joker_is_its_own_piece() {
    assert_eq!(Piece::joker(), Piece::new(Color::Joker, 255));
    assert_eq!(Piece::joker().num, u8::MAX);
    assert_eq!(Color::Joker.name(), "n/a");
    assert_eq!(Color::Red.name(), "red");
    assert_eq!(Color::Blue.name(), "blue");
    assert_eq!(Color::Yellow.name(), "yellow");
    assert_eq!(Color::Black.name(), "black");
}

#[test]
fn pieces_are_ordered_by_color_then_number() {
    assert!(Piece::new(Color::Red, 13) < Piece::new(Color::Blue, 1));
    assert!(Piece::new(Color::Blue, 1) < Piece::new(Color::Blue, 2));
    assert!(Piece::new(Color::Black, 13) < Piece::joker());
    assert!(Coord(1, 9) < Coord(2, 0));
    assert!(Coord(1, 1) < Coord(1, 2));
}

#[test]
fn full_deck_has_each_piece_twice() {
    let pieces = Game::create_pieces();
    assert_eq!(pieces.len(), 104);
    assert_eq!(pieces[0], Piece::new(Color::Red, 1));
    assert_eq!(pieces[1], Piece::new(Color::Blue, 1));
    assert_eq!(pieces[2], Piece::new(Color::Yellow, 1));
    assert_eq!(pieces[3], Piece::new(Color::Black, 1));
    assert_eq!(pieces[4], Piece::new(Color::Red, 1));
    assert_eq!(pieces[8], Piece::new(Color::Red, 2));
    assert_eq!(pieces[103], Piece::new(Color::Black, 13));
    for color in [Color::Red, Color::Blue, Color::Yellow, Color::Black] {
        for num in 1..=13u8 {
            let count = pieces.iter().filter(|p| **p == Piece::new(color, num)).count();
            assert_eq!(count, 2);
        }
    }
    assert!(pieces.iter().all(|p| p.color != Color::Joker));
}

#[test]
fn new_game_holds_the_full_deck_in_some_order() {
    let game = Game::new();
    assert!(game.board().is_empty());
    let mut dealt = game.remaining_pieces().to_vec();
    assert_eq!(dealt.len(), 104);
    dealt.sort();
    let mut full = Game::create_pieces();
    full.sort();
    assert_eq!(dealt, full);
}

#[test]
fn shuffle_changes_the_order_and_keeps_the_pieces() {
    let mut changed = false;
    for _ in 0..4 {
        let mut game = Game::new();
        game.shuffle();
        let mut sorted = game.remaining_pieces().to_vec();
        if sorted != Game::create_pieces() {
            changed = true;
        }
        sorted.sort();
        let mut full = Game::create_pieces();
        full.sort();
        assert_eq!(sorted, full);
    }
    assert!(changed);
}

#[test]
fn deal_takes_from_the_end_of_the_deck() {
    let mut game = Game::new();
    let before = game.remaining_pieces().to_vec();
    let hand = game.deal(14);
    assert_eq!(hand, before[90..].to_vec());
    assert_eq!(game.remaining_pieces(), &before[..90]);
    let none = game.deal(0);
    assert!(none.is_empty());
    assert_eq!(game.remaining_pieces().len(), 90);
}

#[test]
fn deal_hands_out_what_is_left() {
    let mut game = Game::new();
    let before = game.remaining_pieces().to_vec();
    let _ = game.deal(100);
    let rest = game.deal(28);
    assert_eq!(rest, before[..4].to_vec());
    assert!(game.remaining_pieces().is_empty());
    assert!(game.deal(3).is_empty());
    assert_eq!(game.deal_piece(), None);
}

#[test]
fn deal_piece_takes_the_last() {
    let mut game = Game::new();
    let before = game.remaining_pieces().to_vec();
    assert_eq!(game.deal_piece(), Some(before[103]));
    assert_eq!(game.deal_piece(), Some(before[102]));
    assert_eq!(game.remaining_pieces().len(), 102);
}

#[test]
fn board_mut_changes_the_board_of_the_game() {
    let mut game = Game::new();
    assert_eq!(game.board_mut().insert(Coord(1, 2), Piece::new(Color::Red, 7)), None);
    assert_eq!(
        game.board_mut().insert(Coord(1, 2), Piece::new(Color::Blue, 8)),
        Some(Piece::new(Color::Red, 7))
    );
    assert_eq!(game.board().get(&Coord(1, 2)), Some(Piece::new(Color::Blue, 8)));
    assert_eq!(game.board().len(), 1);
    assert_eq!(game.board_mut().remove(&Coord(1, 2)), Some(Piece::new(Color::Blue, 8)));
    assert_eq!(game.board_mut().remove(&Coord(1, 2)), None);
    assert!(game.board().is_empty());
    assert_eq!(game.remaining_pieces().len(), 104);
}

#[test]
fn board_lists_its_cells_in_order() {
    let board = board_of(&[(2, 0, Color::Red, 1), (-1, 5, Color::Blue, 2), (-1, -5, Color::Black, 3)]);
    assert_eq!(
        board.entries(),
        vec![
            (Coord(-1, -5), Piece::new(Color::Black, 3)),
            (Coord(-1, 5), Piece::new(Color::Blue, 2)),
            (Coord(2, 0), Piece::new(Color::Red, 1)),
        ]
    );
    assert!(board.contains_key(&Coord(2, 0)));
    assert!(!board.contains_key(&Coord(0, 2)));
    let bounds = board.bounds().unwrap();
    assert_eq!((bounds.min_x, bounds.max_x, bounds.min_y, bounds.max_y), (-1, 2, -5, 5));
    assert!(Board::new().bounds().is_none());
    assert_eq!(board.clone(), board);
}

#[test]
fn game_copies_and_defaults() {
    let game = game_with(&[(0, 0, Color::Red, 1)]);
    let copy = game.clone();
    assert_eq!(copy, game);
    let empty = Game::default();
    assert!(empty.board().is_empty());
    assert!(empty.remaining_pieces().is_empty());
    assert_eq!(Group::default(), Group(vec![]));
}
