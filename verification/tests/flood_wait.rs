use tmd::session::shutdown::flood_wait_secs;

#[test]
fn flood_wait_parses_grammers_value_form() {
    let err = "request error: rpc error 420: FLOOD_WAIT caused by \
               auth.sendCode (value: 225)";
    assert_eq!(flood_wait_secs(err), Some(225));
}

#[test]
fn flood_wait_parses_raw_error_type() {
    assert_eq!(flood_wait_secs("rpc error 420: FLOOD_WAIT_90"), Some(90));
}

#[test]
fn flood_wait_non_flood_error_is_none() {
    assert_eq!(
        flood_wait_secs("rpc error 401: AUTH_KEY_UNREGISTERED"),
        None
    );
}

#[test]
fn flood_wait_unreadable_defaults_to_60() {
    assert_eq!(flood_wait_secs("FLOOD_WAIT (no number given)"), Some(60));
}
