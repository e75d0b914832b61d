use outside_auras::combat_log::{parse_log_line, LogEvent};
use outside_auras::text::{decimal_string, split_ranges};

const APPLIED: &str = "8/12 20:34:40.123  SPELL_AURA_APPLIED,Creature-0-3767-2569-2-201261-000054A1B2,\"Neltharion\",0xa48,0x0,Player-1403-0A1B2C3D,\"Dratnos-Ravencrest\",0x514,0x0,410953,\"Volcanic Heartbeat\",0x20,DEBUFF";
const REMOVED: &str = "8/12 20:34:46.501  SPELL_AURA_REMOVED,Creature-0-3767-2569-2-201261-000054A1B2,\"Neltharion\",0xa48,0x0,Player-1403-0A1B2C3D,\"Dratnos-Ravencrest\",0x514,0x0,410953,\"Volcanic Heartbeat\",0x20,DEBUFF";

fn name_of(e: Option<LogEvent>) -> (String, &'static str) {
    match e {
        Some(LogEvent::HeartApplied(n)) => (n, "applied"),
        Some(LogEvent::HeartRemoved(n)) => (n, "removed"),
        Some(LogEvent::EncounterBoundary) => (String::new(), "boundary"),
        Some(LogEvent::Unrelated) => (String::new(), "unrelated"),
        None => (String::new(), "unreadable"),
    }
}

#[test]
fn applied_heartbeat_names_the_target() {
    assert_eq!(name_of(parse_log_line(APPLIED)), ("Dratnos".to_string(), "applied"));
}

#[test]
fn removed_heartbeat_names_the_target() {
    assert_eq!(name_of(parse_log_line(REMOVED)), ("Dratnos".to_string(), "removed"));
}

#[test]
fn encounter_start_and_end_are_boundaries() {
    let start = "8/12 20:30:00.000  ENCOUNTER_START,2684,\"Neltharion\",16,20,2569";
    let end = "8/12 20:40:00.000  ENCOUNTER_END,2684,\"Neltharion\",16,20,1,600000";
    assert_eq!(name_of(parse_log_line(start)).1, "boundary");
    assert_eq!(name_of(parse_log_line(end)).1, "boundary");
    // A boundary needs no more fields than its type.
    assert_eq!(name_of(parse_log_line("1/1 00:00:00.000  ENCOUNTER_END")).1, "boundary");
}

#[test]
fn other_spells_and_events_are_unrelated() {
    let other_spell = APPLIED.replace("Volcanic Heartbeat", "Shadowflame");
    assert_eq!(name_of(parse_log_line(&other_spell)).1, "unrelated");
    let damage = "8/12 20:34:40.123  SPELL_DAMAGE,Player-1,\"A-B\",0x1,0x0";
    assert_eq!(name_of(parse_log_line(damage)).1, "unrelated");
}

#[test]
fn unreadable_lines_are_rejected() {
    // No two-space separator.
    assert_eq!(name_of(parse_log_line("8/12 20:34:40.123 SPELL_AURA_APPLIED")).1, "unreadable");
    // An aura event with fewer than eleven fields.
    let short = "8/12 20:34:40.123  SPELL_AURA_APPLIED,a,b,c,d,e,f,g,h,i";
    assert_eq!(name_of(parse_log_line(short)).1, "unreadable");
    // A heartbeat target without a realm.
    let no_realm = APPLIED.replace("\"Dratnos-Ravencrest\"", "\"Dratnos\"");
    assert_eq!(name_of(parse_log_line(&no_realm)).1, "unreadable");
    // A target whose name part is empty.
    let empty = APPLIED.replace("\"Dratnos-Ravencrest\"", "-Ravencrest");
    assert_eq!(name_of(parse_log_line(&empty)).1, "unreadable");
    // A target that starts with a multi-byte character.
    let wide = APPLIED.replace("\"Dratnos-Ravencrest\"", "éDratnos-Ravencrest");
    assert_eq!(name_of(parse_log_line(&wide)).1, "unreadable");
}

#[test]
fn only_the_second_piece_is_the_csv() {
    // A second double space ends the event fields.
    let line = format!("{}  trailing", APPLIED);
    assert_eq!(name_of(parse_log_line(&line)), ("Dratnos".to_string(), "applied"));
    // Three spaces: the csv starts with a space, so the type does not match.
    let three = APPLIED.replacen("  ", "   ", 1);
    assert_eq!(name_of(parse_log_line(&three)).1, "unrelated");
}

#[test]
fn target_name_keeps_non_ascii_after_the_quote() {
    let line = APPLIED.replace("\"Dratnos-Ravencrest\"", "\"Drätnös-Ravencrest\"");
    assert_eq!(name_of(parse_log_line(&line)), ("Drätnös".to_string(), "applied"));
}

#[test]
fn decimal_strings() {
    assert_eq!(decimal_string(0), "0");
    assert_eq!(decimal_string(7), "7");
    assert_eq!(decimal_string(10), "10");
    assert_eq!(decimal_string(1234), "1234");
    assert_eq!(decimal_string(u64::MAX), u64::MAX.to_string());
}

#[test]
fn split_ranges_matches_str_split() {
    let text: Vec<char> = "a,,b,".chars().collect();
    let r = split_ranges(&text, 0, text.len(), ',');
    assert_eq!(r, vec![(0, 1), (2, 2), (3, 4), (5, 5)]);
    let empty: Vec<char> = Vec::new();
    assert_eq!(split_ranges(&empty, 0, 0, ','), vec![(0, 0)]);
}
