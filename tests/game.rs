use card_table::game::{update_play_button, Config, GameState, PatientList, DEFAULT_MAX_PATIENTS};

#[test]
fn game_opens_on_start_menu() {
    assert_eq!(GameState::default(), GameState::StartMenu);
}

#[test]
fn play_button_leads_to_treatment() {
    assert_eq!(update_play_button(true), Some(GameState::Treatment));
    assert_eq!(update_play_button(false), None);
}

#[test]
fn patient_queue_fills_to_configured_size() {
    let config = Config::default();
    assert_eq!(config.max_patients(), DEFAULT_MAX_PATIENTS);
    assert_eq!(config.max_patients(), 3);
    let mut list = PatientList::new();
    assert_eq!(list.shortfall(&config), 3);
    list.push_back(11);
    assert_eq!(list.shortfall(&config), 2);
    list.push_back(12);
    list.push_back(13);
    assert_eq!(list.shortfall(&config), 0);
    list.push_back(14);
    assert_eq!(list.shortfall(&config), 0);
    assert_eq!(list.queue, vec![11, 12, 13, 14]);
    assert_eq!(list.shortfall(&Config::new(0)), 0);
}
