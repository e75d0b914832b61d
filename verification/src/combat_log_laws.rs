//! What a combat-log line means, stated over how the line is built: a
//! heartbeat line names the player before the first `-` of its target,
//! whatever the realm.
use vstd::prelude::*;
use crate::combat_log::{line_event, target_player_name, LineEvent};
use crate::text::{first_double_space, lemma_split_on_nonempty, split_on};
use crate::text_laws::{
    join_on, lemma_first_double_space_absent, lemma_first_double_space_after,
    lemma_split_on_concat, lemma_split_on_join, lemma_split_on_without_sep,
};

verus! {

broadcast use vstd::seq_lib::group_seq_properties;

/// The target field `"N-R` names the player `N` when `N` holds no `-`,
/// whatever the realm part `R` holds (hyphens included).
pub proof fn lemma_target_player_name(n: Seq<char>, r: Seq<char>)
    requires
        !n.contains('-'),
    ensures
        target_player_name(seq!['"'] + n + seq!['-'] + r) == Some(n),
{
    let head = seq!['"'] + n;
    assert(seq!['"'] + n + seq!['-'] + r =~= head + seq!['-'] + r);
    assert(!head.contains('-')) by {
        if head.contains('-') {
            let j = choose|j: int| 0 <= j < head.len() && head[j] == '-';
            if j > 0 {
                assert(n[j - 1] == head[j]);
            }
        }
    }
    lemma_split_on_concat(head, r, '-');
    lemma_split_on_without_sep(head, '-');
    lemma_split_on_nonempty(r, '-');
    let parts = split_on(head + seq!['-'] + r, '-');
    assert(parts[0] == head);
    assert(head[0] == '"');
    assert(head.drop_first() =~= n);
}

/// A heartbeat line, `date  csv` with the csv fields joined by commas, is
/// read as the application (or removal) of the debuff to the player named
/// before the first `-` of the seventh field, whatever the other fields
/// hold.
pub proof fn lemma_heartbeat_line(
    date: Seq<char>,
    fields: Seq<Seq<char>>,
    n: Seq<char>,
    r: Seq<char>,
    applied: bool,
)
    requires
        forall|i: int|
            0 <= i < date.len() - 1 ==> !(date[i] == ' ' && #[trigger] date[i + 1] == ' '),
        date.len() == 0 || date.last() != ' ',
        fields.len() >= 11,
        forall|i: int| 0 <= i < fields.len() ==> !(#[trigger] fields[i]).contains(','),
        forall|i: int|
            0 <= i < join_on(fields, ',').len() - 1 ==> !(join_on(fields, ',')[i] == ' '
                && #[trigger] join_on(fields, ',')[i + 1] == ' '),
        fields[0] == if applied {
            "SPELL_AURA_APPLIED"@
        } else {
            "SPELL_AURA_REMOVED"@
        },
        fields[6] == seq!['"'] + n + seq!['-'] + r,
        !n.contains('-'),
        fields[10] == "\"Volcanic Heartbeat\""@,
    ensures
        line_event(date + seq![' ', ' '] + join_on(fields, ',')) == if applied {
            Some(LineEvent::HeartApplied(n))
        } else {
            Some(LineEvent::HeartRemoved(n))
        },
{
    let csv = join_on(fields, ',');
    let line = date + seq![' ', ' '] + csv;
    lemma_first_double_space_after(date, csv);
    assert(line.subrange(date.len() as int + 2, line.len() as int) =~= csv);
    lemma_first_double_space_absent(csv);
    lemma_split_on_join(fields, ',');
    lemma_target_player_name(n, r);
    reveal_strlit("ENCOUNTER_START");
    reveal_strlit("ENCOUNTER_END");
    reveal_strlit("SPELL_AURA_APPLIED");
    reveal_strlit("SPELL_AURA_REMOVED");
    assert("SPELL_AURA_APPLIED"@[11] != "SPELL_AURA_REMOVED"@[11]);
    assert("SPELL_AURA_APPLIED"@ != "SPELL_AURA_REMOVED"@);
    assert(fields[0] != "ENCOUNTER_START"@ && fields[0] != "ENCOUNTER_END"@);
    assert(first_double_space(line) == Some(date.len() as int));
}

} // verus!
