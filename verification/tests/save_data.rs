use flappy_rust::save::{from_stored_text, restore, stored_text, SaveData};

#[test]
fn default_record_is_zero() {
    assert_eq!(SaveData::default().high_score, 0);
}

#[test]
fn restore_keeps_a_decoded_record() {
    assert_eq!(restore(Some(SaveData { high_score: 17 })), SaveData { high_score: 17 });
}

#[test]
fn restore_falls_back_to_zero() {
    assert_eq!(restore(None), SaveData { high_score: 0 });
}

#[test]
fn stored_text_is_decimal() {
    assert_eq!(stored_text(&SaveData { high_score: 31 }), "31");
    assert_eq!(stored_text(&SaveData { high_score: 0 }), "0");
}

#[test]
fn from_stored_text_parses_the_entry() {
    assert_eq!(from_stored_text(Some("12")), SaveData { high_score: 12 });
    assert_eq!(from_stored_text(Some("+8")), SaveData { high_score: 8 });
}

#[test]
fn from_stored_text_falls_back_to_zero() {
    assert_eq!(from_stored_text(None), SaveData { high_score: 0 });
    assert_eq!(from_stored_text(Some("")), SaveData { high_score: 0 });
    assert_eq!(from_stored_text(Some("ten")), SaveData { high_score: 0 });
    assert_eq!(from_stored_text(Some("4294967296")), SaveData { high_score: 0 });
}

#[test]
fn stored_text_round_trip() {
    for n in [0u32, 1, 99, 4000, u32::MAX] {
        let data = SaveData { high_score: n };
        assert_eq!(from_stored_text(Some(&stored_text(&data))), data);
    }
}
