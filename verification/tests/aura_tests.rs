use outside_auras::auras::delay_display::State;
use outside_auras::auras::lua_aura::lua_item_texts;
use outside_auras::auras::nelth_aura::{parse_player_list, NelthAura, NelthSharedState};
use outside_auras::combat_log::LogEvent;

fn line(kind: &str, target: &str, spell: &str) -> String {
    format!(
        "8/12 20:34:40.123  {},Creature-0-1,\"Neltharion\",0xa48,0x0,Player-1-2,\"{}-Ravencrest\",0x514,0x0,410953,\"{}\",0x20,DEBUFF",
        kind, target, spell
    )
}

fn applied(name: &str) -> String {
    line("SPELL_AURA_APPLIED", name, "Volcanic Heartbeat")
}

fn removed(name: &str) -> String {
    line("SPELL_AURA_REMOVED", name, "Volcanic Heartbeat")
}

fn names(state: &NelthSharedState) -> Vec<String> {
    state.volcanic_hearts.clone()
}

#[test]
fn hearts_follow_applications_and_removals() {
    let mut s = NelthSharedState::new();
    assert!(s.handle_log_line(&applied("Dratnos")));
    assert!(s.handle_log_line(&applied("Tettles")));
    assert_eq!(names(&s), vec!["Dratnos", "Tettles"]);
    assert!(s.handle_log_line(&removed("Dratnos")));
    assert_eq!(names(&s), vec!["Tettles"]);
    // Removing a player without the debuff still repaints and changes nothing.
    assert!(s.handle_log_line(&removed("Nobody")));
    assert_eq!(names(&s), vec!["Tettles"]);
}

#[test]
fn removal_drops_every_entry_of_the_player() {
    let mut s = NelthSharedState::new();
    s.handle_log_line(&applied("Dratnos"));
    s.handle_log_line(&applied("Tettles"));
    s.handle_log_line(&applied("Dratnos"));
    s.handle_log_line(&removed("Dratnos"));
    assert_eq!(names(&s), vec!["Tettles"]);
}

#[test]
fn apply_then_remove_restores_the_list() {
    let mut s = NelthSharedState::new();
    s.handle_log_line(&applied("A"));
    s.handle_log_line(&applied("B"));
    let before = names(&s);
    s.handle_log_line(&applied("C"));
    s.handle_log_line(&removed("C"));
    assert_eq!(names(&s), before);
}

#[test]
fn encounter_boundaries_clear_without_repaint() {
    let mut s = NelthSharedState::new();
    s.handle_log_line(&applied("Dratnos"));
    assert!(!s.handle_log_line("8/12 20:40:00.000  ENCOUNTER_END,2684,\"Neltharion\",16,20,1,600000"));
    assert!(names(&s).is_empty());
    s.handle_log_line(&applied("Dratnos"));
    assert!(!s.handle_log_line("8/12 20:41:00.000  ENCOUNTER_START,2684,\"Neltharion\",16,20,2569"));
    assert!(names(&s).is_empty());
}

#[test]
fn other_spells_change_nothing() {
    let mut s = NelthSharedState::new();
    s.handle_log_line(&applied("Dratnos"));
    assert!(!s.handle_log_line(&line("SPELL_AURA_APPLIED", "Tettles", "Shadowflame")));
    assert!(!s.handle_log_line(&line("SPELL_AURA_REMOVED", "Dratnos", "Shadowflame")));
    assert_eq!(names(&s), vec!["Dratnos"]);
}

#[test]
fn apply_event_directly() {
    let mut s = NelthSharedState::new();
    assert!(s.apply_event(LogEvent::HeartApplied("X".to_string())));
    assert!(!s.apply_event(LogEvent::Unrelated));
    assert_eq!(names(&s), vec!["X"]);
    assert!(s.apply_event(LogEvent::HeartRemoved("X".to_string())));
    assert!(names(&s).is_empty());
}

#[test]
fn items_are_sorted_stably_by_player_list() {
    let aura = NelthAura::new(vec!["Tettles".to_string(), "Dratnos".to_string(), "Mage".to_string()]);
    let mut s = NelthSharedState::new();
    for n in ["Mage", "Dratnos", "Zed", "Tettles", "Ann"] {
        s.handle_log_line(&applied(n));
    }
    let items = aura.items(&s);
    let got: Vec<(String, String)> = items.into_iter().map(|i| (i.rank, i.name)).collect();
    // Keys: Mage 2, Dratnos 1, Zed 0 (not listed), Tettles 0, Ann 0 (not listed).
    let want: Vec<(String, String)> = vec![("1", "Zed"), ("2", "Tettles"), ("3", "Ann"), ("4", "Dratnos"), ("5", "Mage")]
        .into_iter()
        .map(|(a, b)| (a.to_string(), b.to_string()))
        .collect();
    assert_eq!(got, want);
}

#[test]
fn items_without_player_list_keep_order() {
    let aura = NelthAura::new(Vec::new());
    let mut s = NelthSharedState::new();
    for n in ["C", "A", "B"] {
        s.handle_log_line(&applied(n));
    }
    let got: Vec<String> = aura.items(&s).into_iter().map(|i| i.name).collect();
    assert_eq!(got, vec!["C", "A", "B"]);
}

#[test]
fn items_rank_labels_count_past_nine() {
    let aura = NelthAura::new(Vec::new());
    let mut s = NelthSharedState::new();
    for i in 0..12 {
        s.handle_log_line(&applied(&format!("P{}", i)));
    }
    let items = aura.items(&s);
    assert_eq!(items.len(), 12);
    assert_eq!(items[9].rank, "10");
    assert_eq!(items[11].rank, "12");
    assert_eq!(items[11].name, "P11");
}

#[test]
fn sizes_follow_the_number_of_hearts() {
    let aura = NelthAura::new(Vec::new());
    let mut s = NelthSharedState::new();
    assert_eq!(aura.item_height(), 56);
    assert_eq!(aura.item_width(), 256);
    assert_eq!(aura.required_size(&s), (256, 0));
    s.handle_log_line(&applied("A"));
    s.handle_log_line(&applied("B"));
    s.handle_log_line(&applied("C"));
    assert_eq!(aura.required_size(&s), (256, 168));
}

#[test]
fn player_list_is_trimmed_and_skips_blank_lines() {
    assert_eq!(parse_player_list("Dratnos\nTettles\nMagePlayer\n"), vec!["Dratnos", "Tettles", "MagePlayer"]);
    assert_eq!(parse_player_list("  Dratnos \r\n\n\t\nTettles"), vec!["Dratnos", "Tettles"]);
    assert_eq!(parse_player_list(""), Vec::<String>::new());
    assert_eq!(parse_player_list("a b\u{3000}\n"), vec!["a b"]);
}

#[test]
fn delay_keeps_gaps_above_ten_ms() {
    let mut st = State::new();
    assert_eq!(st.label(), "Current delay: 0");
    assert!(!st.handle_log_line(10));
    assert_eq!(st.last_delay, 0);
    assert!(st.handle_log_line(11));
    assert_eq!(st.last_delay, 11);
    assert!(!st.handle_log_line(3));
    assert_eq!(st.last_delay, 11);
    assert!(st.handle_log_line(1500));
    assert_eq!(st.label(), "Current delay: 1500");
}

#[test]
fn delay_is_cut_to_32_bits() {
    let mut st = State::new();
    assert!(st.handle_log_line((1u128 << 32) + 20));
    assert_eq!(st.last_delay, 20);
    assert!(!st.handle_log_line(1u128 << 32));
    assert_eq!(st.last_delay, 20);
}

#[test]
fn lua_rows_become_text_pairs() {
    let rows = vec![
        vec!["1".to_string(), "first".to_string()],
        vec!["2".to_string(), "second".to_string(), "ignored".to_string()],
    ];
    let pairs = lua_item_texts(&rows);
    assert_eq!(pairs, vec![("1".to_string(), "first".to_string()), ("2".to_string(), "second".to_string())]);
}

#[test]
fn applied_player_is_shown_and_removed_player_is_not() {
    let aura = NelthAura::new(vec!["B".to_string()]);
    let mut s = NelthSharedState::new();
    s.handle_log_line(&applied("A"));
    s.handle_log_line(&applied("B"));
    let shown: Vec<String> = aura.items(&s).into_iter().map(|i| i.name).collect();
    assert!(shown.contains(&"A".to_string()) && shown.contains(&"B".to_string()));
    s.handle_log_line(&removed("A"));
    let shown: Vec<String> = aura.items(&s).into_iter().map(|i| i.name).collect();
    assert_eq!(shown, vec!["B"]);
}
