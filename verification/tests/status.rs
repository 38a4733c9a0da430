use acorn_profiles::profile::Status;

#[test]
fn decode_online() {
    assert_eq!(Status::from(String::from("Online")), Status::Online);
}

#[test]
fn decode_away() {
    assert_eq!(Status::from(String::from("Away")), Status::Away);
}

#[test]
fn decode_offline() {
    assert_eq!(Status::from(String::from("Offline")), Status::Offline);
}

#[test]
fn decode_unknown_falls_back_to_offline() {
    assert_eq!(Status::from(String::from("Busy")), Status::Offline);
    assert_eq!(Status::from(String::from("")), Status::Offline);
    assert_eq!(Status::from(String::from("ONLINE")), Status::Offline);
    assert_eq!(Status::from(String::from("online")), Status::Offline);
    assert_eq!(Status::from(String::from("Away ")), Status::Offline);
}

#[test]
fn encode_each_variant() {
    assert_eq!(Status::Online.status_string(), String::from("Online"));
    assert_eq!(Status::Away.status_string(), String::from("Away"));
    assert_eq!(Status::Offline.status_string(), String::from("Offline"));
}

#[test]
fn encode_after_decode_is_identity_on_known_strings() {
    for s in ["Online", "Away", "Offline"] {
        let round = Status::from(String::from(s)).status_string();
        assert_eq!(round, String::from(s));
    }
}

#[test]
fn encode_after_decode_is_not_identity_on_unknown_strings() {
    for s in ["Busy", "", "online", "AWAY"] {
        let round = Status::from(String::from(s)).status_string();
        assert_eq!(round, String::from("Offline"));
        assert_ne!(round, String::from(s));
    }
}

#[test]
fn decode_after_encode_is_identity() {
    for st in [Status::Online, Status::Away, Status::Offline] {
        assert_eq!(Status::from(st.status_string()), st);
    }
}
