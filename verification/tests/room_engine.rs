use rkub::{Board, ClientMessage, Color, Coord, Outgoing, Piece, Player, Room, ServerMessage};

const ANN: u64 = 11;
const BOB: u64 = 22;
const CAT: u64 = 33;

fn two_players() -> Room {
    let mut room = Room::new();
    room.set_name("abcdef".to_string());
    room.add_player(ANN, "ann");
    room.add_player(BOB, "bob");
    room
}

fn three_players() -> Room {
    let mut room = two_players();
    room.add_player(CAT, "cat");
    room
}

fn to(to: usize, msg: ServerMessage) -> Outgoing {
    Outgoing { to, msg }
}

fn total_pieces(room: &Room) -> usize {
    let hands: usize = room.players().iter().map(|p| p.hand.len()).sum();
    room.game().remaining_pieces().len() + hands + room.game().board().len()
}

fn yellow_run() -> Vec<(Coord, Piece)> {
    vec![
        (Coord(10, 8), Piece::new(Color::Yellow, 2)),
        (Coord(11, 8), Piece::new(Color::Yellow, 3)),
        (Coord(12, 8), Piece::new(Color::Yellow, 4)),
    ]
}

fn board_with(cells: &[(Coord, Piece)]) -> Board {
    let mut board = Board::new();
    for (coord, piece) in cells {
        board.insert(*coord, *piece);
    }
    board
}

#[test]
fn new_room_is_empty() {
    let room = Room::new();
    assert!(!room.has_started());
    assert!(!room.has_ended());
    assert_eq!(room.name(), "");
    assert!(room.players().is_empty());
    assert_eq!(room.active_player(), 0);
    assert_eq!(room.turn_delta(), 0);
    assert_eq!(room.game().remaining_pieces().len(), 104);
    assert!(room.game().board().is_empty());
    assert_eq!(room.player_of(ANN), None);
    assert_eq!(total_pieces(&room), 104);
}

#[test]
fn first_player_gets_a_hand_and_a_snapshot() {
    let mut room = Room::new();
    room.set_name("qwerty".to_string());
    let deck = room.game().remaining_pieces().to_vec();
    let out = room.add_player(ANN, "ann");
    assert_eq!(
        out,
        vec![to(
            0,
            ServerMessage::JoinedRoom {
                room_name: "qwerty".to_string(),
                players: vec!["ann".to_string()],
                hand: deck[76..].to_vec(),
                pieces_remaining: 76,
                board: Board::new(),
            }
        )]
    );
    assert_eq!(room.players().len(), 1);
    assert_eq!(room.players()[0].name, "ann");
    assert!(room.players()[0].connected);
    assert_eq!(room.players()[0].hand, deck[76..].to_vec());
    assert_eq!(room.players()[0].conn, ANN);
    assert_eq!(room.game().remaining_pieces(), &deck[..76]);
    assert_eq!(room.player_of(ANN), Some(0));
    assert_eq!(room.active_player(), 0);
    assert_eq!(total_pieces(&room), 104);
}

#[test]
fn second_player_is_announced_to_the_first() {
    let mut room = Room::new();
    room.add_player(ANN, "ann");
    let deck = room.game().remaining_pieces().to_vec();
    let out = room.add_player(BOB, "bob");
    assert_eq!(
        out,
        vec![
            to(0, ServerMessage::PlayerJoined("bob".to_string())),
            to(
                1,
                ServerMessage::JoinedRoom {
                    room_name: String::new(),
                    players: vec!["ann".to_string(), "bob".to_string()],
                    hand: deck[48..].to_vec(),
                    pieces_remaining: 48,
                    board: Board::new(),
                }
            ),
        ]
    );
    assert_eq!(room.player_of(BOB), Some(1));
    assert_eq!(room.active_player(), 0);
    assert_eq!(total_pieces(&room), 104);
}

#[test]
fn late_players_get_what_is_left_of_the_deck() {
    let mut room = three_players();
    assert_eq!(room.game().remaining_pieces().len(), 20);
    room.add_player(44, "dan");
    assert_eq!(room.players()[3].hand.len(), 20);
    assert!(room.game().remaining_pieces().is_empty());
    room.add_player(55, "eve");
    assert!(room.players()[4].hand.is_empty());
    assert_eq!(total_pieces(&room), 104);
}

#[test]
fn valid_run_ends_the_turn_without_a_draw() {
    let mut room = two_players();
    for (coord, piece) in yellow_run() {
        let (running, out) = room.on_message(ANN, ClientMessage::Place(coord, piece));
        assert!(running);
        assert_eq!(
            out,
            vec![to(0, ServerMessage::Place(coord, piece)), to(1, ServerMessage::Place(coord, piece))]
        );
    }
    assert_eq!(room.turn_delta(), 3);
    let deck_before = room.game().remaining_pieces().len();
    let (running, out) = room.on_message(ANN, ClientMessage::EndTurn);
    assert!(running);
    assert!(!out.iter().any(|o| matches!(o.msg, ServerMessage::DrawPiece(_))));
    let report = ServerMessage::TurnFinished {
        ending_player: "ann".to_string(),
        ending_drew: false,
        next_player: 1,
        pieces_remaining: deck_before,
        board: board_with(&yellow_run()),
    };
    assert_eq!(
        out,
        vec![
            to(0, ServerMessage::EndTurnValid),
            to(1, ServerMessage::StartTurn),
            to(0, report.clone()),
            to(1, report),
        ]
    );
    assert_eq!(room.active_player(), 1);
    assert_eq!(room.turn_delta(), 0);
    assert_eq!(room.game().remaining_pieces().len(), deck_before);
}

#[test]
fn idle_turn_draws_one_piece() {
    let mut room = two_players();
    let deck = room.game().remaining_pieces().to_vec();
    let hand = room.players()[0].hand.clone();
    let (running, out) = room.on_message(ANN, ClientMessage::EndTurn);
    assert!(running);
    let drawn = deck[47];
    let report = ServerMessage::TurnFinished {
        ending_player: "ann".to_string(),
        ending_drew: true,
        next_player: 1,
        pieces_remaining: 47,
        board: Board::new(),
    };
    assert_eq!(
        out,
        vec![
            to(0, ServerMessage::DrawPiece(drawn)),
            to(0, ServerMessage::EndTurnValid),
            to(1, ServerMessage::StartTurn),
            to(0, report.clone()),
            to(1, report),
        ]
    );
    assert_eq!(out.iter().filter(|o| matches!(o.msg, ServerMessage::DrawPiece(_))).count(), 1);
    let mut expected = hand;
    expected.push(drawn);
    assert_eq!(room.players()[0].hand, expected);
    assert_eq!(room.game().remaining_pieces(), &deck[..47]);
    assert_eq!(room.active_player(), 1);
    assert_eq!(total_pieces(&room), 104);
}

#[test]
fn active_player_leaves_and_the_turn_moves_on() {
    let mut room = two_players();
    let (running, out) = room.on_message(ANN, ClientMessage::Close);
    assert!(running);
    assert_eq!(
        out,
        vec![
            to(1, ServerMessage::PlayerDisconnected(0)),
            to(1, ServerMessage::StartTurn),
            to(
                1,
                ServerMessage::TurnFinished {
                    ending_player: "ann".to_string(),
                    ending_drew: false,
                    next_player: 1,
                    pieces_remaining: 48,
                    board: Board::new(),
                }
            ),
        ]
    );
    assert_eq!(room.active_player(), 1);
    assert!(!room.players()[0].connected);
    assert!(room.players()[1].connected);
    assert!(!room.has_ended());
}

#[test]
fn waiting_player_leaves_and_the_turn_stays() {
    let mut room = two_players();
    let (running, out) = room.on_message(BOB, ClientMessage::Close);
    assert!(running);
    assert_eq!(out, vec![to(0, ServerMessage::PlayerDisconnected(1))]);
    assert_eq!(room.active_player(), 0);
    assert!(!room.players()[1].connected);
}

#[test]
fn room_ends_when_the_last_player_leaves() {
    let mut room = two_players();
    room.on_message(BOB, ClientMessage::Close);
    let (running, out) = room.on_message(ANN, ClientMessage::Close);
    assert!(!running);
    assert!(out.is_empty());
    assert!(room.has_ended());
    let (running, out) = room.on_message(ANN, ClientMessage::Ping);
    assert!(!running);
    assert!(out.is_empty());
}

#[test]
fn turn_skips_players_that_are_gone() {
    let mut room = three_players();
    room.on_message(BOB, ClientMessage::Close);
    let (_, out) = room.on_message(ANN, ClientMessage::EndTurn);
    assert_eq!(room.active_player(), 2);
    assert!(room.players()[room.active_player()].connected);
    assert!(out.contains(&to(2, ServerMessage::StartTurn)));
    assert!(!out.iter().any(|o| o.to == 1));
    let (_, out) = room.on_message(CAT, ClientMessage::EndTurn);
    assert_eq!(room.active_player(), 0);
    assert!(out.contains(&to(0, ServerMessage::StartTurn)));
}

#[test]
fn turn_comes_back_to_the_only_player_left() {
    let mut room = three_players();
    room.on_message(BOB, ClientMessage::Close);
    room.on_message(CAT, ClientMessage::Close);
    let (running, out) = room.on_message(ANN, ClientMessage::EndTurn);
    assert!(running);
    assert_eq!(room.active_player(), 0);
    assert!(out.contains(&to(0, ServerMessage::StartTurn)));
}

#[test]
fn leaving_active_player_hands_over_round_the_table() {
    let mut room = three_players();
    room.on_message(ANN, ClientMessage::EndTurn);
    room.on_message(BOB, ClientMessage::EndTurn);
    assert_eq!(room.active_player(), 2);
    room.on_message(ANN, ClientMessage::Close);
    let (running, out) = room.on_message(CAT, ClientMessage::Close);
    assert!(running);
    assert_eq!(room.active_player(), 1);
    assert_eq!(out[0], to(1, ServerMessage::PlayerDisconnected(2)));
    assert_eq!(out[1], to(1, ServerMessage::StartTurn));
    assert_eq!(out.len(), 3);
}

#[test]
fn returning_player_takes_the_seat_back() {
    let mut room = two_players();
    let hand = room.players()[1].hand.clone();
    room.on_message(BOB, ClientMessage::Close);
    let out = room.add_player(99, "bob");
    assert_eq!(
        out,
        vec![
            to(
                1,
                ServerMessage::JoinedRoom {
                    room_name: "abcdef".to_string(),
                    players: vec!["ann".to_string(), "bob".to_string()],
                    hand: hand.clone(),
                    pieces_remaining: 48,
                    board: Board::new(),
                }
            ),
            to(1, ServerMessage::CurrentPlayer(0)),
            to(0, ServerMessage::PlayerReconnected(1)),
            to(1, ServerMessage::PlayerReconnected(1)),
        ]
    );
    assert_eq!(room.players().len(), 2);
    assert!(room.players()[1].connected);
    assert_eq!(room.players()[1].hand, hand);
    assert_eq!(room.player_of(99), Some(1));
    assert_eq!(room.player_of(BOB), None);
    let (running, out) = room.on_message(BOB, ClientMessage::Ping);
    assert!(running);
    assert!(out.is_empty());
    let (_, out) = room.on_message(99, ClientMessage::Ping);
    assert_eq!(out, vec![to(1, ServerMessage::Pong)]);
}

#[test]
fn name_of_a_connected_player_makes_a_new_player() {
    let mut room = two_players();
    let out = room.add_player(CAT, "ann");
    assert_eq!(room.players().len(), 3);
    assert_eq!(room.player_of(CAT), Some(2));
    assert_eq!(room.player_of(ANN), Some(0));
    assert_eq!(out[0], to(0, ServerMessage::PlayerJoined("ann".to_string())));
    assert_eq!(out[1], to(1, ServerMessage::PlayerJoined("ann".to_string())));
    assert_eq!(out.len(), 3);
}

#[test]
fn moves_out_of_turn_are_ignored() {
    let mut room = two_players();
    let hand = room.players()[1].hand.clone();
    let piece = hand[0];
    for msg in [
        ClientMessage::Place(Coord(0, 0), piece),
        ClientMessage::Pickup(Coord(0, 0), piece),
        ClientMessage::EndTurn,
    ] {
        let (running, out) = room.on_message(BOB, msg);
        assert!(running);
        assert!(out.is_empty());
    }
    assert_eq!(room.players()[1].hand, hand);
    assert!(room.game().board().is_empty());
    assert_eq!(room.turn_delta(), 0);
    assert_eq!(room.active_player(), 0);
}

#[test]
fn ping_is_answered_to_the_sender_only() {
    let mut room = two_players();
    let (running, out) = room.on_message(BOB, ClientMessage::Ping);
    assert!(running);
    assert_eq!(out, vec![to(1, ServerMessage::Pong)]);
}

#[test]
fn messages_without_a_meaning_in_a_room_change_nothing() {
    let mut room = two_players();
    for msg in [
        ClientMessage::CreateRoom("ann".to_string()),
        ClientMessage::JoinRoom("ann".to_string(), "abcdef".to_string()),
        ClientMessage::Ready("ann".to_string()),
    ] {
        let (running, out) = room.on_message(ANN, msg);
        assert!(running);
        assert!(out.is_empty());
    }
    let (running, out) = room.on_message(777, ClientMessage::EndTurn);
    assert!(running);
    assert!(out.is_empty());
    assert_eq!(room.active_player(), 0);
}

#[test]
fn invalid_board_keeps_the_turn() {
    let mut room = two_players();
    room.on_message(ANN, ClientMessage::Place(Coord(0, 0), Piece::new(Color::Red, 5)));
    room.on_message(ANN, ClientMessage::Place(Coord(1, 0), Piece::new(Color::Red, 5)));
    let deck = room.game().remaining_pieces().len();
    let (running, out) = room.on_message(ANN, ClientMessage::EndTurn);
    assert!(running);
    assert_eq!(out, vec![to(0, ServerMessage::InvalidBoardState)]);
    assert_eq!(room.active_player(), 0);
    assert_eq!(room.turn_delta(), 2);
    assert_eq!(room.game().remaining_pieces().len(), deck);
    assert_eq!(room.game().board().len(), 2);
}

#[test]
fn place_takes_the_piece_from_the_hand() {
    let mut room = two_players();
    let hand = room.players()[0].hand.clone();
    let piece = hand[0];
    let (_, out) = room.on_message(ANN, ClientMessage::Place(Coord(3, 4), piece));
    assert_eq!(
        out,
        vec![
            to(0, ServerMessage::Place(Coord(3, 4), piece)),
            to(1, ServerMessage::Place(Coord(3, 4), piece))
        ]
    );
    let mut expected = hand.clone();
    expected.swap_remove(0);
    assert_eq!(room.players()[0].hand, expected);
    assert_eq!(room.game().board().get(&Coord(3, 4)), Some(piece));
    assert_eq!(room.turn_delta(), 1);
    assert_eq!(total_pieces(&room), 104);
}

#[test]
fn pickup_brings_the_piece_back() {
    let mut room = two_players();
    let hand = room.players()[0].hand.clone();
    let piece = hand[5];
    room.on_message(ANN, ClientMessage::Place(Coord(3, 4), piece));
    let (running, out) = room.on_message(ANN, ClientMessage::Pickup(Coord(3, 4), piece));
    assert!(running);
    assert_eq!(
        out,
        vec![
            to(0, ServerMessage::Pickup(Coord(3, 4), piece)),
            to(1, ServerMessage::Pickup(Coord(3, 4), piece))
        ]
    );
    assert!(room.game().board().is_empty());
    assert_eq!(room.players()[0].hand.len(), 28);
    assert_eq!(*room.players()[0].hand.last().unwrap(), piece);
    assert_eq!(room.turn_delta(), 0);
    assert_eq!(total_pieces(&room), 104);
}

#[test]
fn pickup_from_an_empty_cell_is_tolerated() {
    let mut room = two_players();
    let piece = Piece::new(Color::Red, 9);
    let (running, out) = room.on_message(ANN, ClientMessage::Pickup(Coord(0, 0), piece));
    assert!(running);
    assert_eq!(out.len(), 2);
    assert_eq!(room.players()[0].hand.len(), 29);
    assert_eq!(room.turn_delta(), -1);
    assert_eq!(total_pieces(&room), 105);
}

#[test]
fn pieces_are_conserved_over_a_game() {
    let mut room = three_players();
    assert_eq!(total_pieces(&room), 104);
    let first = room.players()[0].hand[0];
    let second = room.players()[0].hand[1];
    room.on_message(ANN, ClientMessage::Place(Coord(0, 0), first));
    room.on_message(ANN, ClientMessage::Place(Coord(1, 0), second));
    assert_eq!(total_pieces(&room), 104);
    room.on_message(ANN, ClientMessage::Pickup(Coord(1, 0), second));
    room.on_message(ANN, ClientMessage::Pickup(Coord(0, 0), first));
    assert_eq!(total_pieces(&room), 104);
    room.on_message(ANN, ClientMessage::EndTurn);
    assert_eq!(room.active_player(), 1);
    assert_eq!(total_pieces(&room), 104);
    room.on_message(BOB, ClientMessage::EndTurn);
    room.on_message(CAT, ClientMessage::Close);
    room.add_player(CAT + 1, "cat");
    room.add_player(44, "dan");
    room.on_message(ANN, ClientMessage::Ping);
    assert_eq!(total_pieces(&room), 104);
}

#[test]
fn empty_deck_means_no_draw() {
    let mut room = three_players();
    room.add_player(44, "dan");
    assert!(room.game().remaining_pieces().is_empty());
    let (running, out) = room.on_message(ANN, ClientMessage::EndTurn);
    assert!(running);
    assert_eq!(out[0], to(0, ServerMessage::EndTurnValid));
    assert_eq!(out[1], to(1, ServerMessage::StartTurn));
    assert_eq!(
        out[2],
        to(
            0,
            ServerMessage::TurnFinished {
                ending_player: "ann".to_string(),
                ending_drew: false,
                next_player: 1,
                pieces_remaining: 0,
                board: Board::new(),
            }
        )
    );
    assert_eq!(out.len(), 6);
    assert_eq!(room.players()[0].hand.len(), 28);
}

#[test]
fn empty_hand_wins_and_ends_the_room() {
    let mut room = two_players();
    let hand = room.players()[0].hand.clone();
    for piece in hand {
        room.on_message(ANN, ClientMessage::Place(Coord(0, 0), piece));
    }
    assert!(room.players()[0].hand.is_empty());
    for (k, (_, piece)) in yellow_run().into_iter().enumerate() {
        room.on_message(ANN, ClientMessage::Place(Coord(k as i32, 0), piece));
    }
    assert!(room.game().is_valid_board().0);
    let (running, out) = room.on_message(ANN, ClientMessage::EndTurn);
    assert!(!running);
    assert_eq!(
        out,
        vec![
            to(0, ServerMessage::PlayerWon("ann".to_string())),
            to(1, ServerMessage::PlayerWon("ann".to_string()))
        ]
    );
    assert!(room.has_ended());
    assert_eq!(room.active_player(), 0);
    for msg in [ClientMessage::EndTurn, ClientMessage::Close, ClientMessage::Ping] {
        let (running, out) = room.on_message(BOB, msg);
        assert!(!running);
        assert!(out.is_empty());
    }
}

#[test]
fn empty_hand_with_a_draw_due_does_not_win() {
    let mut room = two_players();
    let hand = room.players()[0].hand.clone();
    for piece in hand {
        room.on_message(ANN, ClientMessage::Place(Coord(0, 0), piece));
    }
    assert!(room.players()[0].hand.is_empty());
    room.on_message(ANN, ClientMessage::Close);
    assert_eq!(room.active_player(), 1);
    assert_eq!(room.turn_delta(), 28);
    room.on_message(BOB, ClientMessage::Pickup(Coord(0, 0), Piece::joker()));
    let (running, _) = room.on_message(BOB, ClientMessage::EndTurn);
    assert!(running);
    assert_eq!(room.active_player(), 1);
    assert_eq!(room.turn_delta(), 0);
    room.add_player(99, "ann");
    assert!(room.players()[0].hand.is_empty());
    room.on_message(BOB, ClientMessage::EndTurn);
    assert_eq!(room.active_player(), 0);
    let deck = room.game().remaining_pieces().to_vec();
    assert_eq!(deck.len(), 47);
    let (running, out) = room.on_message(99, ClientMessage::EndTurn);
    assert!(running);
    assert_eq!(out[0], to(0, ServerMessage::DrawPiece(deck[46])));
    assert!(!out.iter().any(|o| matches!(o.msg, ServerMessage::PlayerWon(_))));
    assert!(!room.has_ended());
    assert_eq!(room.players()[0].hand, vec![deck[46]]);
    assert_eq!(room.active_player(), 1);
}

#[test]
fn empty_hand_and_empty_deck_win_at_once() {
    let mut room = three_players();
    room.add_player(44, "dan");
    room.add_player(55, "eve");
    assert!(room.players()[4].hand.is_empty());
    for conn in [ANN, BOB, CAT, 44] {
        let (running, _) = room.on_message(conn, ClientMessage::EndTurn);
        assert!(running);
    }
    assert_eq!(room.active_player(), 4);
    let (running, out) = room.on_message(55, ClientMessage::EndTurn);
    assert!(!running);
    assert_eq!(out.len(), 5);
    assert!(out.iter().all(|o| o.msg == ServerMessage::PlayerWon("eve".to_string())));
    assert!(!out.iter().any(|o| matches!(o.msg, ServerMessage::TurnFinished { .. })));
    assert!(room.has_ended());
}

#[test]
fn broadcast_reaches_connected_players_in_order() {
    let mut room = three_players();
    room.on_message(BOB, ClientMessage::Close);
    let out = room.broadcast(&ServerMessage::StartGame);
    assert_eq!(out, vec![to(0, ServerMessage::StartGame), to(2, ServerMessage::StartGame)]);
    assert!(Room::new().broadcast(&ServerMessage::StartGame).is_empty());
}

#[test]
fn player_hand_can_be_changed() {
    let mut player = Player::new("ann".to_string(), vec![Piece::new(Color::Red, 1)], ANN);
    assert!(player.connected);
    assert_eq!(player.name, "ann");
    assert_eq!(player.conn, ANN);
    player.add_to_hand(Piece::new(Color::Blue, 2));
    player.hand_mut().push(Piece::new(Color::Black, 3));
    player.add_to_hand(Piece::new(Color::Red, 1));
    assert_eq!(
        player.hand,
        vec![
            Piece::new(Color::Red, 1),
            Piece::new(Color::Blue, 2),
            Piece::new(Color::Black, 3),
            Piece::new(Color::Red, 1)
        ]
    );
    assert!(player.take_from_hand(Piece::new(Color::Red, 1)));
    assert_eq!(
        player.hand,
        vec![Piece::new(Color::Red, 1), Piece::new(Color::Blue, 2), Piece::new(Color::Black, 3)]
    );
    assert!(!player.take_from_hand(Piece::new(Color::Yellow, 1)));
    assert_eq!(player.hand.len(), 3);
}

#[test]
fn messages_are_copied_whole() {
    let msg = ServerMessage::TurnFinished {
        ending_player: "ann".to_string(),
        ending_drew: true,
        next_player: 1,
        pieces_remaining: 3,
        board: board_with(&yellow_run()),
    };
    assert_eq!(msg.clone(), msg);
    let msg = ClientMessage::JoinRoom("ann".to_string(), "abcdef".to_string());
    assert_eq!(msg.clone(), msg);
}

#[test]
fn failed_delivery_counts_as_a_lost_connection() {
    let mut room = two_players();
    let (running, out) = room.on_send_failure(0);
    assert!(running);
    assert_eq!(
        out,
        vec![
            to(1, ServerMessage::PlayerDisconnected(0)),
            to(1, ServerMessage::StartTurn),
            to(
                1,
                ServerMessage::TurnFinished {
                    ending_player: "ann".to_string(),
                    ending_drew: false,
                    next_player: 1,
                    pieces_remaining: 48,
                    board: Board::new(),
                }
            ),
        ]
    );
    assert!(!room.players()[0].connected);
    assert_eq!(room.active_player(), 1);
    let (running, out) = room.on_send_failure(0);
    assert!(running);
    assert!(out.is_empty());
    let (running, out) = room.on_send_failure(7);
    assert!(running);
    assert!(out.is_empty());
    let (running, out) = room.on_send_failure(1);
    assert!(!running);
    assert!(out.is_empty());
    assert!(room.has_ended());
    let (running, out) = room.on_send_failure(1);
    assert!(!running);
    assert!(out.is_empty());
    assert_eq!(total_pieces(&room), 104);
}

#[test]
fn newcomer_to_a_started_game_is_told_so() {
    let mut room = Room::new();
    room.set_name("abcdef".to_string());
    room.add_player(ANN, "ann");
    room.start();
    assert!(room.has_started());
    let out = room.add_player(BOB, "bob");
    assert_eq!(out.len(), 3);
    assert_eq!(out[0], to(1, ServerMessage::GameAlreadyStarted("abcdef".to_string())));
    assert_eq!(out[1], to(0, ServerMessage::PlayerJoined("bob".to_string())));
    assert!(matches!(out[2], Outgoing { to: 1, msg: ServerMessage::JoinedRoom { .. } }));
    room.on_message(BOB, ClientMessage::Close);
    let out = room.add_player(CAT, "bob");
    assert!(!out.iter().any(|o| matches!(o.msg, ServerMessage::GameAlreadyStarted(_))));
    assert_eq!(room.players().len(), 2);
}
