use fc::comm::{DataMessage, PeerAddress};
use fc::sequences::SequencePool;
use fc::switchboard::{CommandError, Switchboard};

fn addr(last_octet: u32, port: u16) -> PeerAddress {
    PeerAddress { ip: 0x0A00_0000 | last_octet, port }
}

// Two Identity frames from the same peer leave one address-book entry, get
// one reply each, and refresh the liveness timer both times.
#[test]
fn handshake_idempotence() {
    let mut sb = Switchboard::new();
    sb.handle_identity(&"sam-01".to_string(), addr(1, 8378), 5);
    sb.handle_identity(&"sam-01".to_string(), addr(1, 8378), 9);

    let route = sb.route_command(&"sam-01".to_string());
    assert_eq!(route, Ok(PeerAddress { ip: 0x0A00_0001, port: 8378 }));

    let first = Switchboard::handshake_reply();
    let second = Switchboard::handshake_reply();
    match (first, second) {
        (DataMessage::Identity(a), DataMessage::Identity(b)) => {
            assert_eq!(a, "flight-01");
            assert_eq!(b, "flight-01");
        },
        _ => panic!("handshake reply must be an Identity frame"),
    }

    // The board stayed live: no deadline has passed right after the refresh.
    let dead = sb.check_deadlines(10, 50);
    assert!(dead.is_empty());
}

// With a 50 ms deadline, 51 ms of silence kills the board; a second board
// silent in the same window is reported too, but only the first abort
// request enqueues the abort sequence.
#[test]
fn board_death_aborts_once() {
    let mut sb = Switchboard::new();
    sb.handle_identity(&"sam-01".to_string(), addr(1, 8378), 0);
    sb.handle_identity(&"sam-02".to_string(), addr(2, 8378), 0);

    let dead = sb.check_deadlines(51, 50);
    assert_eq!(dead.len(), 2);

    let mut pool = SequencePool::new();
    let mut aborts = 0;
    for (i, _) in dead.iter().enumerate() {
        if pool.request_abort(1000 + i as u64) {
            aborts += 1;
        }
    }
    assert_eq!(aborts, 1);
    assert!(pool.is_active(&"abort".to_string()));
}

// A board declared dead stays dead on further Sam or Bms traffic; only a
// fresh Identity handshake revives it.
#[test]
fn dead_board_stays_dead() {
    let mut sb = Switchboard::new();
    sb.handle_identity(&"sam-01".to_string(), addr(1, 8378), 0);
    let dead = sb.check_deadlines(51, 50);
    assert_eq!(dead, vec!["sam-01".to_string()]);

    // Data traffic refreshes the timer but does not revive the board.
    let known = sb.heard_from(&"sam-01".to_string(), 52);
    assert!(known);
    assert!(sb.heartbeat_targets().is_empty());

    // A new handshake does revive it.
    sb.handle_identity(&"sam-01".to_string(), addr(1, 8378), 53);
    assert_eq!(sb.heartbeat_targets(), vec!["sam-01".to_string()]);
}

// A message from a board that never shook hands is the fatal case the
// caller aborts on.
#[test]
fn unknown_board_is_reported() {
    let mut sb = Switchboard::new();
    let known = sb.heard_from(&"sam-09".to_string(), 1);
    assert!(!known);
}

// Routing a command to an unknown board is an error returned to the caller.
#[test]
fn route_to_unknown_board_fails() {
    let sb = Switchboard::new();
    assert_eq!(sb.route_command(&"sam-01".to_string()), Err(CommandError::UnknownBoard));
}

// Heartbeats go to live boards only.
#[test]
fn heartbeat_targets_live_boards() {
    let mut sb = Switchboard::new();
    sb.handle_identity(&"sam-01".to_string(), addr(1, 8378), 0);
    sb.handle_identity(&"sam-02".to_string(), addr(2, 8378), 40);
    let dead = sb.check_deadlines(51, 50);
    assert_eq!(dead, vec!["sam-01".to_string()]);
    assert_eq!(sb.heartbeat_targets(), vec!["sam-02".to_string()]);
}
