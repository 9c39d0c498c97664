use car_server::codec::Car;
use car_server::conn::{
    fill_response, finish_write, on_readable, ConnError, Connection, HandleResult, Interest,
    Phase, WriteOutcome,
};
use car_server::grid::Grid;
use car_server::server::{Server, WriteStart};

const MAP: &[u8] =
    b"#..#######\n#..#..#..#\n#..#..#..#\n#..#.....#\n#..#.....#\n#..####..#\n#........#\n##########\n";

fn reference_grid() -> Grid {
    Grid::load(MAP, 8, 10).unwrap()
}

#[test]
fn fresh_connection_awaits_and_reads() {
    let c = Connection::new(7);
    assert_eq!(c.id, 7);
    assert_eq!(c.phase, Phase::AwaitingRequest);
    assert_eq!(c.interest(), Some(Interest::Readable));
}

#[test]
fn complete_frame_flips_to_sending() {
    let grid = reference_grid();
    let mut entity = Car { pos: (0, 0), target: (0, 0) };
    let mut c = Connection::new(1);
    let r = on_readable(&mut c, &mut entity, &grid, b"((0,0):(8,6))", false);
    assert_eq!(r, HandleResult::KeepOpen);
    assert_eq!(c.phase, Phase::SendingResponse);
    assert_eq!(c.interest(), Some(Interest::Writable));
    assert_eq!(entity.target, (8, 6));
    assert_eq!(entity.pos, (1, 0));
}

#[test]
fn malformed_frame_reports_protocol_error() {
    let grid = reference_grid();
    let mut entity = Car { pos: (0, 0), target: (0, 0) };
    let mut c = Connection::new(1);
    let r = on_readable(&mut c, &mut entity, &grid, b"not-a-frame!!", false);
    assert_eq!(r, HandleResult::Close(ConnError::Protocol));
    assert_eq!(c.phase, Phase::Closed);
    assert_eq!(c.interest(), None);
    // the entity is untouched
    assert_eq!(entity.pos, (0, 0));
    assert_eq!(entity.target, (0, 0));
}

#[test]
fn peer_close_mid_frame_reports_peer_closed() {
    let grid = reference_grid();
    let mut entity = Car { pos: (0, 0), target: (0, 0) };
    let mut c = Connection::new(1);
    let r = on_readable(&mut c, &mut entity, &grid, b"((0,0)", true);
    assert_eq!(r, HandleResult::Close(ConnError::PeerClosed));
    assert_eq!(c.phase, Phase::Closed);
}

#[test]
fn fatal_write_reports_io_error() {
    let grid = reference_grid();
    let mut entity = Car { pos: (0, 0), target: (0, 0) };
    let mut c = Connection::new(1);
    assert_eq!(
        on_readable(&mut c, &mut entity, &grid, b"((0,0):(8,6))", false),
        HandleResult::KeepOpen
    );
    assert_eq!(fill_response(&mut c, &entity), HandleResult::KeepOpen);
    assert_eq!(c.outbuf, b"((1,0):(8,6))".to_vec());
    let r = finish_write(&mut c, WriteOutcome::Fatal);
    assert_eq!(r, HandleResult::Close(ConnError::Io));
    assert_eq!(c.phase, Phase::Closed);
}

#[test]
fn full_write_returns_to_awaiting() {
    let grid = reference_grid();
    let mut entity = Car { pos: (0, 0), target: (0, 0) };
    let mut c = Connection::new(1);
    on_readable(&mut c, &mut entity, &grid, b"((0,0):(8,6))", false);
    fill_response(&mut c, &entity);
    let r = finish_write(&mut c, WriteOutcome::Wrote(13));
    assert_eq!(r, HandleResult::KeepOpen);
    assert_eq!(c.phase, Phase::AwaitingRequest);
    assert_eq!(c.outbuf.len(), 0);
}

#[test]
fn wide_entity_state_overflows_the_frame() {
    // a state whose decimal form exceeds the fixed width closes the
    // connection rather than emit a malformed frame
    let mut c = Connection {
        id: 1,
        phase: Phase::SendingResponse,
        inbuf: Vec::new(),
        outbuf: Vec::new(),
    };
    let entity = Car { pos: (0, 0), target: (99, 0) };
    let r = fill_response(&mut c, &entity);
    assert_eq!(r, HandleResult::Close(ConnError::FrameOverflow));
    assert_eq!(c.phase, Phase::Closed);
}

#[test]
fn stale_writable_event_is_ignored() {
    let mut server = Server::new(reference_grid());
    let id = server.accept();
    // the connection still awaits a request; a writable event does nothing
    assert_eq!(server.begin_writable(id), WriteStart::Ignore);
    assert_eq!(server.connection_count(), 1);
}
