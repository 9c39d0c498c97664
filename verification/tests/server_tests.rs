use car_server::codec::Car;
use car_server::conn::WriteOutcome;
use car_server::grid::Grid;
use car_server::route::advance;
use car_server::server::{Server, WriteStart};

const MAP: &[u8] =
    b"#..#######\n#..#..#..#\n#..#..#..#\n#..#.....#\n#..#.....#\n#..####..#\n#........#\n##########\n";

fn reference_grid() -> Grid {
    Grid::load(MAP, 8, 10).unwrap()
}

#[test]
fn zero_length_step_stays_put() {
    let grid = reference_grid();
    let mut entity = Car { pos: (1, 0), target: (0, 0) };
    advance(&mut entity, &grid, (1, 0));
    assert_eq!(entity.pos, (1, 0));
    assert_eq!(entity.target, (1, 0));
}

#[test]
fn blocked_target_stays_put() {
    let grid = reference_grid();
    let mut entity = Car { pos: (1, 0), target: (1, 0) };
    advance(&mut entity, &grid, (3, 1));
    assert_eq!(entity.pos, (1, 0));
    assert_eq!(entity.target, (3, 1));
}

#[test]
fn out_of_bounds_target_stays_put() {
    let grid = reference_grid();
    let mut entity = Car { pos: (1, 0), target: (1, 0) };
    advance(&mut entity, &grid, (42, -3));
    assert_eq!(entity.pos, (1, 0));
}

#[test]
fn walled_off_target_stays_put() {
    // the centre cell is walkable but enclosed by blocked cells
    let map = b"...\n#.#\n###\n...\n";
    let grid = Grid::load(map, 4, 3).unwrap();
    let mut entity = Car { pos: (0, 3), target: (0, 3) };
    advance(&mut entity, &grid, (1, 1));
    assert_eq!(entity.pos, (0, 3));
    assert_eq!(entity.target, (1, 1));
}

#[test]
fn first_step_enters_the_corridor() {
    // from the origin the sole reachable neighbour is (1,0)
    let grid = reference_grid();
    let mut entity = Car { pos: (0, 0), target: (0, 0) };
    advance(&mut entity, &grid, (8, 6));
    assert_eq!(entity.pos, (1, 0));
}

#[test]
fn corner_target_of_reference_maze_is_blocked() {
    // the far corner of the reference maze sits on a wall: the request
    // records the target and the position stays
    let grid = reference_grid();
    let mut entity = Car { pos: (0, 0), target: (0, 0) };
    advance(&mut entity, &grid, (9, 7));
    assert_eq!(entity.pos, (0, 0));
    assert_eq!(entity.target, (9, 7));
}

#[test]
fn repeated_requests_reach_the_target() {
    let grid = reference_grid();
    let mut entity = Car { pos: (0, 0), target: (0, 0) };
    let mut steps = 0;
    while entity.pos != (8, 6) && steps < 80 {
        let before = entity.pos;
        advance(&mut entity, &grid, (8, 6));
        assert_ne!(entity.pos, before, "no progress toward a reachable target");
        assert!(grid.walkable(entity.pos.0, entity.pos.1));
        steps += 1;
    }
    assert_eq!(entity.pos, (8, 6));
    // once there, further identical requests are zero-length steps
    advance(&mut entity, &grid, (8, 6));
    assert_eq!(entity.pos, (8, 6));
}

#[test]
fn accept_hands_out_fresh_monotonic_ids() {
    let mut server = Server::new(reference_grid());
    let a = server.accept();
    let b = server.accept();
    let c = server.accept();
    assert_eq!((a, b, c), (1, 2, 3));
    assert_eq!(server.connection_count(), 3);
    assert!(server.drop_connection(b));
    assert_eq!(server.connection_count(), 2);
    let d = server.accept();
    assert_eq!(d, 4);
}

#[test]
fn unknown_identifier_is_ignored() {
    let mut server = Server::new(reference_grid());
    let closed = server.handle_readable(77, b"((0,0):(8,6))", false);
    assert!(!closed);
    assert_eq!(server.position(), (0, 0));
    assert_eq!(server.begin_writable(77), WriteStart::Ignore);
}

#[test]
fn one_request_one_response() {
    let mut server = Server::new(reference_grid());
    let id = server.accept();
    let closed = server.handle_readable(id, b"((0,0):(8,6))", false);
    assert!(!closed);
    assert_eq!(server.position(), (1, 0));
    assert_eq!(server.target(), (8, 6));
    let frame = match server.begin_writable(id) {
        WriteStart::Data(frame) => frame,
        other => panic!("expected a frame to write, got {:?}", other),
    };
    assert_eq!(frame, b"((1,0):(8,6))".to_vec());
    let closed = server.finish_writable(id, WriteOutcome::Wrote(frame.len()));
    assert!(!closed);
    // the connection awaits the next request again, and the entity takes
    // one further step onto a walkable cell
    let closed = server.handle_readable(id, b"((1,0):(8,6))", false);
    assert!(!closed);
    let (x, y) = server.position();
    assert_ne!((x, y), (1, 0));
    assert!(reference_grid().walkable(x, y));
}

#[test]
fn partial_frames_accumulate() {
    let mut server = Server::new(reference_grid());
    let id = server.accept();
    assert!(!server.handle_readable(id, b"((0,0)", false));
    assert_eq!(server.position(), (0, 0));
    assert!(!server.handle_readable(id, b":(8,6))", false));
    assert_eq!(server.position(), (1, 0));
}

#[test]
fn oversized_request_closes_the_connection() {
    let mut server = Server::new(reference_grid());
    let id = server.accept();
    let closed = server.handle_readable(id, b"((0,0):(8,6))((0,0):(8,6))", false);
    assert!(closed);
    assert_eq!(server.connection_count(), 0);
    assert_eq!(server.position(), (0, 0));
}

#[test]
fn short_write_closes_the_connection() {
    let mut server = Server::new(reference_grid());
    let id = server.accept();
    assert!(!server.handle_readable(id, b"((0,0):(8,6))", false));
    let frame = match server.begin_writable(id) {
        WriteStart::Data(frame) => frame,
        other => panic!("expected a frame to write, got {:?}", other),
    };
    let closed = server.finish_writable(id, WriteOutcome::Wrote(frame.len() - 1));
    assert!(closed);
    assert_eq!(server.connection_count(), 0);
}

#[test]
fn would_block_defers_without_reserialising() {
    let mut server = Server::new(reference_grid());
    let id = server.accept();
    assert!(!server.handle_readable(id, b"((0,0):(8,6))", false));
    let first = match server.begin_writable(id) {
        WriteStart::Data(frame) => frame,
        other => panic!("expected a frame to write, got {:?}", other),
    };
    assert!(!server.finish_writable(id, WriteOutcome::WouldBlock));
    // another client moves the entity meanwhile
    let other = server.accept();
    assert!(!server.handle_readable(other, b"((0,0):(8,6))", false));
    // the deferred response is the frame serialised first, byte for byte
    let second = match server.begin_writable(id) {
        WriteStart::Data(frame) => frame,
        other => panic!("expected a frame to write, got {:?}", other),
    };
    assert_eq!(first, second);
}

#[test]
fn peer_close_tears_down() {
    let mut server = Server::new(reference_grid());
    let id = server.accept();
    let closed = server.handle_readable(id, b"", true);
    assert!(closed);
    assert_eq!(server.connection_count(), 0);
}

#[test]
fn malformed_frame_closes_only_that_connection() {
    let mut server = Server::new(reference_grid());
    let bad = server.accept();
    let good = server.accept();
    let closed = server.handle_readable(bad, b"not-a-frame!!", false);
    assert!(closed);
    assert_eq!(server.position(), (0, 0));
    // the other connection keeps working and receives a valid response
    let closed = server.handle_readable(good, b"((0,0):(8,6))", false);
    assert!(!closed);
    let frame = match server.begin_writable(good) {
        WriteStart::Data(frame) => frame,
        other => panic!("expected a frame to write, got {:?}", other),
    };
    assert_eq!(frame, b"((1,0):(8,6))".to_vec());
}

#[test]
fn last_write_wins_and_both_observe_it() {
    let mut server = Server::new(reference_grid());
    let a = server.accept();
    let b = server.accept();
    assert!(!server.handle_readable(a, b"((0,0):(8,6))", false));
    assert!(!server.handle_readable(b, b"((0,0):(2,1))", false));
    // the second request's target overwrote the first's
    assert_eq!(server.target(), (2, 1));
    // both clients observe the same entity state
    let fa = match server.begin_writable(a) {
        WriteStart::Data(frame) => frame,
        other => panic!("expected a frame to write, got {:?}", other),
    };
    let fb = match server.begin_writable(b) {
        WriteStart::Data(frame) => frame,
        other => panic!("expected a frame to write, got {:?}", other),
    };
    assert_eq!(fa, fb);
}
