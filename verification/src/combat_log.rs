//! The shape of a combat-log line and the events the Neltharion aura reacts to.
//!
//! A line is `<date time>  <csv>`: the timestamp, two spaces, then the
//! comma-separated event fields. The first field is the event type; for the
//! aura events the seventh field is the target's quoted `"Name-Realm"` and
//! the eleventh the quoted spell name.
use vstd::prelude::*;
use vstd::string::*;
use crate::text::{
    chars_of, find_double_space, first_double_space, lemma_split_on_nonempty, range_is, split_on,
    split_ranges, substring,
};

verus! {

/// What comes before the first two-space separator (the whole line if
/// there is none): the first item of `line.split("  ")`.
pub open spec fn first_piece(line: Seq<char>) -> Seq<char> {
    match first_double_space(line) {
        Some(i) => line.subrange(0, i),
        None => line,
    }
}

/// The second item of `line.split("  ")`, if there is one.
pub open spec fn second_piece(line: Seq<char>) -> Option<Seq<char>> {
    match first_double_space(line) {
        Some(i) => Some(first_piece(line.subrange(i + 2, line.len() as int))),
        None => None,
    }
}

/// What the Neltharion aura makes of a line.
pub enum LineEvent {
    /// An encounter started or ended.
    EncounterBoundary,
    /// "Volcanic Heartbeat" was applied to the player with this name.
    HeartApplied(Seq<char>),
    /// "Volcanic Heartbeat" was removed from the player with this name.
    HeartRemoved(Seq<char>),
    /// Any other event.
    Unrelated,
}

/// The spell whose application the aura tracks, quoted as in the log.
pub open spec fn volcanic_heartbeat() -> Seq<char> {
    "\"Volcanic Heartbeat\""@
}

/// The player name in a quoted `"Name-Realm"` target field: the part before
/// the first `-`, without its first character (the opening quote). `None`
/// where there is no `-`, or where the part before it is empty or starts
/// with a character that is not a single byte in UTF-8 (a byte slice
/// `[1..]` of it would not end on a character boundary).
pub open spec fn target_player_name(target: Seq<char>) -> Option<Seq<char>> {
    let parts = split_on(target, '-');
    if parts.len() < 2 {
        None
    } else if parts[0].len() == 0 || parts[0][0] as u32 >= 128 {
        None
    } else {
        Some(parts[0].drop_first())
    }
}

/// The event a line carries, or `None` for a line that the aura cannot
/// read: one without a two-space separator, an aura event with fewer than
/// eleven fields, or a heartbeat event whose target has no readable name.
pub open spec fn line_event(line: Seq<char>) -> Option<LineEvent> {
    match second_piece(line) {
        None => None,
        Some(csv) => {
            let fields = split_on(csv, ',');
            let kind = fields[0];
            if kind == "ENCOUNTER_START"@ || kind == "ENCOUNTER_END"@ {
                Some(LineEvent::EncounterBoundary)
            } else if kind == "SPELL_AURA_APPLIED"@ || kind == "SPELL_AURA_REMOVED"@ {
                if fields.len() < 11 {
                    None
                } else if fields[10] != volcanic_heartbeat() {
                    Some(LineEvent::Unrelated)
                } else {
                    match target_player_name(fields[6]) {
                        None => None,
                        Some(name) => if kind == "SPELL_AURA_APPLIED"@ {
                            Some(LineEvent::HeartApplied(name))
                        } else {
                            Some(LineEvent::HeartRemoved(name))
                        },
                    }
                }
            } else {
                Some(LineEvent::Unrelated)
            }
        },
    }
}

/// A line event with the player name held as a `String`.
pub enum LogEvent {
    EncounterBoundary,
    HeartApplied(String),
    HeartRemoved(String),
    Unrelated,
}

impl View for LogEvent {
    type V = LineEvent;

    open spec fn view(&self) -> LineEvent {
        match self {
            LogEvent::EncounterBoundary => LineEvent::EncounterBoundary,
            LogEvent::HeartApplied(name) => LineEvent::HeartApplied(name@),
            LogEvent::HeartRemoved(name) => LineEvent::HeartRemoved(name@),
            LogEvent::Unrelated => LineEvent::Unrelated,
        }
    }
}

/// Reads the event a combat-log line carries; `None` exactly for the lines
/// that the aura cannot read (see `line_event`).
pub fn parse_log_line(line: &str) -> (r: Option<LogEvent>)
    ensures
        match r {
            Some(e) => line_event(line@) == Some(e@),
            None => line_event(line@) is None,
        },
{
    let v = chars_of(line);
    let n = v.len();
    assert(v@.subrange(0, n as int) =~= line@);
    let i = match find_double_space(&v, 0, n) {
        None => {
            return None;
        },
        Some(i) => i,
    };
    let rest_lo = i + 2;
    let csv_hi = match find_double_space(&v, rest_lo, n) {
        Some(j) => j,
        None => n,
    };
    let ghost rest = line@.subrange(rest_lo as int, n as int);
    let ghost csv = v@.subrange(rest_lo as int, csv_hi as int);
    assert(rest =~= v@.subrange(rest_lo as int, n as int));
    assert(second_piece(line@) == Some(csv)) by {
        if csv_hi < n {
            assert(rest.subrange(0, csv_hi - rest_lo) =~= csv);
        } else {
            assert(rest =~= csv);
        }
    }
    let fields = split_ranges(&v, rest_lo, csv_hi, ',');
    let ghost spec_fields = split_on(csv, ',');
    proof {
        lemma_split_on_nonempty(csv, ',');
    }
    let (a, b) = fields[0];
    if range_is(&v, a, b, "ENCOUNTER_START") || range_is(&v, a, b, "ENCOUNTER_END") {
        return Some(LogEvent::EncounterBoundary);
    }
    let applied = range_is(&v, a, b, "SPELL_AURA_APPLIED");
    let removed = range_is(&v, a, b, "SPELL_AURA_REMOVED");
    if !applied && !removed {
        return Some(LogEvent::Unrelated);
    }
    if fields.len() < 11 {
        return None;
    }
    let (sa, sb) = fields[10];
    if !range_is(&v, sa, sb, "\"Volcanic Heartbeat\"") {
        return Some(LogEvent::Unrelated);
    }
    let (ta, tb) = fields[6];
    let parts = split_ranges(&v, ta, tb, '-');
    let ghost target = v@.subrange(ta as int, tb as int);
    proof {
        lemma_split_on_nonempty(target, '-');
    }
    if parts.len() < 2 {
        return None;
    }
    let (pa, pb) = parts[0];
    if pa == pb {
        return None;
    }
    assert(split_on(target, '-')[0][0] == v@[pa as int]);
    if (v[pa] as u32) >= 128 {
        return None;
    }
    let name = substring(line, pa + 1, pb);
    assert(name@ =~= split_on(target, '-')[0].drop_first());
    if applied {
        Some(LogEvent::HeartApplied(name))
    } else {
        Some(LogEvent::HeartRemoved(name))
    }
}

} // verus!
