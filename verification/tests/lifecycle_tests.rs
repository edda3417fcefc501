use nodeindex::state::{AppState, ConnectionState, WakeHandle, RETRY_ATTEMPTS};

fn fresh() -> AppState {
    AppState::new(&vec![1], &vec![])
}

#[test]
fn starts_connecting_with_full_attempts() {
    let state = fresh();
    assert_eq!(
        state.connection_state(),
        ConnectionState::CONNECTING(RETRY_ATTEMPTS)
    );
}

#[test]
fn set_state_moves_the_lifecycle() {
    let mut state = fresh();
    state.set_state(ConnectionState::SYNCHRONIZING);
    assert_eq!(state.connection_state(), ConnectionState::SYNCHRONIZING);
    state.set_state(ConnectionState::ACTIVE);
    assert_eq!(state.connection_state(), ConnectionState::ACTIVE);
}

#[test]
fn disconnect_counts_attempts_down_then_waits() {
    let mut state = fresh();
    // Attempts 5, 4, 3, 2 count down without handing out a wake handle.
    for expected in [4, 3, 2, 1] {
        let handle = state.on_disconnect();
        assert_eq!(handle, None);
        assert_eq!(state.connection_state(), ConnectionState::CONNECTING(expected));
    }
    // The last attempt moves to DISCONNECTED and hands the handle out.
    let handle = state.on_disconnect();
    assert_eq!(handle, Some(WakeHandle { id: 0 }));
    assert_eq!(
        state.connection_state(),
        ConnectionState::DISCONNECTED(WakeHandle { id: 0 })
    );
}

#[test]
fn disconnect_from_active_restarts_attempts() {
    let mut state = fresh();
    state.set_state(ConnectionState::ACTIVE);
    let handle = state.on_disconnect();
    assert_eq!(handle, None);
    assert_eq!(
        state.connection_state(),
        ConnectionState::CONNECTING(RETRY_ATTEMPTS)
    );
}

#[test]
fn reconnect_hands_the_wake_handle_out_exactly_once() {
    let mut state = fresh();
    state.set_state(ConnectionState::DISCONNECTED(WakeHandle { id: 7 }));
    let first = state.on_reconnect();
    assert_eq!(first, Some(WakeHandle { id: 7 }));
    assert_eq!(
        state.connection_state(),
        ConnectionState::CONNECTING(RETRY_ATTEMPTS)
    );
    // A second request finds no stored handle and is a no-op.
    let second = state.on_reconnect();
    assert_eq!(second, None);
    assert_eq!(
        state.connection_state(),
        ConnectionState::CONNECTING(RETRY_ATTEMPTS)
    );
}

#[test]
fn reconnect_is_a_noop_unless_disconnected() {
    let mut state = fresh();
    state.set_state(ConnectionState::ACTIVE);
    assert_eq!(state.on_reconnect(), None);
    assert_eq!(state.connection_state(), ConnectionState::ACTIVE);
}

#[test]
fn wake_handles_are_fresh_per_disconnect() {
    let mut state = fresh();
    state.set_state(ConnectionState::CONNECTING(1));
    let first = state.on_disconnect().unwrap();
    state.on_reconnect();
    state.set_state(ConnectionState::CONNECTING(1));
    let second = state.on_disconnect().unwrap();
    assert_ne!(first, second);
}

#[test]
fn status_labels_name_each_state() {
    let mut state = fresh();
    assert_eq!(state.status_label().as_str(), "CONNECTING (5)");
    state.set_state(ConnectionState::SYNCHRONIZING);
    assert_eq!(state.status_label().as_str(), "SYNCHRONIZING");
    state.set_state(ConnectionState::ACTIVE);
    assert_eq!(state.status_label().as_str(), "ACTIVE");
    state.set_state(ConnectionState::DISCONNECTED(WakeHandle { id: 0 }));
    assert_eq!(state.status_label().as_str(), "DISCONNECTED");
}

#[test]
fn decimal_rendering_handles_signs() {
    let mut s = String::new();
    nodeindex::digits::push_dec_u64(&mut s, 0);
    assert_eq!(s, "0");
    let mut s = String::new();
    nodeindex::digits::push_dec_u64(&mut s, 9041);
    assert_eq!(s, "9041");
    let mut s = String::new();
    nodeindex::digits::push_dec_i32(&mut s, -2147483648);
    assert_eq!(s, "-2147483648");
    assert_eq!(nodeindex::digits::parse_u8("255"), Some(255));
    assert_eq!(nodeindex::digits::parse_u8("256"), None);
    assert_eq!(nodeindex::digits::parse_u8("042"), Some(42));
}

#[test]
fn transport_disconnect_marks_stale_and_counts_down() {
    let mut state = AppState::new(&vec![1], &vec![9]);
    assert_eq!(state.on_reconnect(), None);
    let handle = state.transport_disconnected();
    assert_eq!(handle, None);
    assert_eq!(state.connection_state(), ConnectionState::CONNECTING(4));
    assert!(matches!(
        state.resource_state(1),
        Some(nodeindex::index::DataState::STALE)
    ));
    assert!(matches!(
        state.enemy_state(9),
        Some(nodeindex::index::DataState::STALE)
    ));
}
