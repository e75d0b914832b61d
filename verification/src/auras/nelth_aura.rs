//! The Neltharion "Volcanic Heartbeat" aura: which players carry the
//! debuff, in which order they are shown, and how the custom player list is
//! read.
use vstd::prelude::*;
use crate::combat_log::{line_event, parse_log_line, LineEvent, LogEvent};
use crate::text::{
    chars_of, decimal, decimal_string, lemma_split_on_nonempty, split_on, split_ranges, substring,
    trim, trim_range,
};

verus! {

broadcast use vstd::seq_lib::group_seq_properties;

/// The character sequences of a sequence of strings.
pub open spec fn string_views(v: Seq<String>) -> Seq<Seq<char>> {
    v.map_values(|s: String| s@)
}

/// Holds for every name but `name`.
pub open spec fn other_than(name: Seq<char>) -> spec_fn(Seq<char>) -> bool {
    |h: Seq<char>| h != name
}

/// The debuffed players after `event`: an encounter boundary clears the
/// list, an application appends the player, a removal drops every entry of
/// the player, and other events change nothing.
pub open spec fn next_hearts(hearts: Seq<Seq<char>>, event: LineEvent) -> Seq<Seq<char>> {
    match event {
        LineEvent::EncounterBoundary => Seq::empty(),
        LineEvent::HeartApplied(name) => hearts.push(name),
        LineEvent::HeartRemoved(name) => hearts.filter(other_than(name)),
        LineEvent::Unrelated => hearts,
    }
}

/// Whether the aura window is asked to repaint after `event`.
pub open spec fn repaints(event: LineEvent) -> bool {
    event is HeartApplied || event is HeartRemoved
}

/// The state that the log-reading thread updates: the players that
/// currently carry "Volcanic Heartbeat", in the order it was applied.
pub struct NelthSharedState {
    pub volcanic_hearts: Vec<String>,
}

impl View for NelthSharedState {
    type V = Seq<Seq<char>>;

    open spec fn view(&self) -> Seq<Seq<char>> {
        string_views(self.volcanic_hearts@)
    }
}

impl NelthSharedState {
    /// No player carries the debuff.
    pub fn new() -> (s: Self)
        ensures
            s@ == Seq::<Seq<char>>::empty(),
    {
        let s = NelthSharedState { volcanic_hearts: Vec::new() };
        assert(s@ =~= Seq::<Seq<char>>::empty());
        s
    }

    /// Drops every entry equal to `name`, keeping the others in order.
    fn remove_player(&mut self, name: &String)
        ensures
            final(self)@ == old(self)@.filter(other_than(name@)),
    {
        let ghost hearts = self@;
        let mut kept: Vec<String> = Vec::new();
        let mut i: usize = 0;
        assert(hearts.take(0) =~= Seq::<Seq<char>>::empty());
        assert(string_views(kept@) =~= hearts.take(0).filter(other_than(name@))) by {
            reveal(Seq::filter);
        }
        while i < self.volcanic_hearts.len()
            invariant
                hearts == string_views(self.volcanic_hearts@),
                i <= self.volcanic_hearts@.len(),
                string_views(kept@) == hearts.take(i as int).filter(other_than(name@)),
            decreases self.volcanic_hearts@.len() - i,
        {
            assert(hearts.take(i + 1) =~= hearts.take(i as int).push(hearts[i as int]));
            proof {
                hearts.take(i as int).lemma_filter_push(hearts[i as int], other_than(name@));
            }
            if !(self.volcanic_hearts[i] == *name) {
                let h = self.volcanic_hearts[i].clone();
                let ghost before = kept@;
                kept.push(h);
                assert(string_views(kept@) =~= string_views(before).push(h@));
            }
            i = i + 1;
        }
        assert(hearts.take(i as int) =~= hearts);
        self.volcanic_hearts = kept;
    }

    /// Applies one event to the list and says whether the window must be
    /// repainted.
    pub fn apply_event(&mut self, event: LogEvent) -> (repaint: bool)
        ensures
            final(self)@ == next_hearts(old(self)@, event@),
            repaint == repaints(event@),
    {
        match event {
            LogEvent::EncounterBoundary => {
                self.volcanic_hearts.clear();
                assert(self@ =~= Seq::<Seq<char>>::empty());
                false
            },
            LogEvent::HeartApplied(name) => {
                let ghost before = self@;
                let ghost n = name@;
                self.volcanic_hearts.push(name);
                assert(self@ =~= before.push(n));
                true
            },
            LogEvent::HeartRemoved(name) => {
                self.remove_player(&name);
                true
            },
            LogEvent::Unrelated => false,
        }
    }

    /// Reacts to one combat-log line; returns whether the window must be
    /// repainted.
    pub fn handle_log_line(&mut self, line: &str) -> (repaint: bool)
        requires
            line_event(line@) is Some,
        ensures
            final(self)@ == next_hearts(old(self)@, line_event(line@).unwrap()),
            repaint == repaints(line_event(line@).unwrap()),
    {
        match parse_log_line(line) {
            Some(event) => self.apply_event(event),
            None => false,
        }
    }
}

/// The sort key of a debuffed player: the position of the first entry of
/// the custom player list with that name, or 0 for a player not on it.
pub open spec fn rank_key(players: Seq<Seq<char>>, name: Seq<char>) -> int {
    match players.index_of_first(name) {
        Some(i) => i,
        None => 0,
    }
}

/// Holds for the names whose sort key is `k`.
pub open spec fn has_rank(players: Seq<Seq<char>>, k: int) -> spec_fn(Seq<char>) -> bool {
    |h: Seq<char>| rank_key(players, h) == k
}

/// The number of distinct sort keys there can be.
pub open spec fn rank_count(players: Seq<Seq<char>>) -> nat {
    if players.len() == 0 {
        1
    } else {
        players.len()
    }
}

/// The entries of `hearts` whose sort key is below `k`: those of key 0 in
/// their order in `hearts`, then those of key 1, and so on.
pub open spec fn ranked_upto(hearts: Seq<Seq<char>>, players: Seq<Seq<char>>, k: nat) -> Seq<
    Seq<char>,
>
    decreases k,
{
    if k == 0 {
        Seq::empty()
    } else {
        ranked_upto(hearts, players, (k - 1) as nat) + hearts.filter(has_rank(players, k - 1))
    }
}

/// `hearts` sorted stably by sort key, as `sort_by_key` leaves it.
pub open spec fn ranked(hearts: Seq<Seq<char>>, players: Seq<Seq<char>>) -> Seq<Seq<char>> {
    ranked_upto(hearts, players, rank_count(players))
}

pub proof fn lemma_rank_key_bounds(players: Seq<Seq<char>>, name: Seq<char>)
    ensures
        0 <= rank_key(players, name) < rank_count(players),
{
    players.index_of_first_ensures(name);
}

/// The position of the first entry of `players` equal to `name`, or 0.
fn rank_of(players: &Vec<String>, name: &String) -> (k: usize)
    ensures
        k == rank_key(string_views(players@), name@),
{
    let ghost pv = string_views(players@);
    proof {
        pv.index_of_first_ensures(name@);
    }
    let mut i: usize = 0;
    while i < players.len()
        invariant
            pv == string_views(players@),
            i <= players@.len(),
            forall|j: int| 0 <= j < i ==> pv[j] != name@,
            match pv.index_of_first(name@) {
                Some(index) => {
                    &&& pv.contains(name@)
                    &&& 0 <= index < pv.len()
                    &&& pv[index] == name@
                    &&& forall|j: int| 0 <= j < index < pv.len() ==> pv[j] != name@
                },
                None => { !pv.contains(name@) },
            },
        decreases players@.len() - i,
    {
        if players[i] == *name {
            assert(pv[i as int] == name@);
            return i;
        }
        i = i + 1;
    }
    assert(!pv.contains(name@));
    0
}

/// The debuffed players in display order.
fn sorted_by_rank(hearts: &Vec<String>, players: &Vec<String>) -> (r: Vec<String>)
    ensures
        string_views(r@) == ranked(string_views(hearts@), string_views(players@)),
{
    let ghost hv = string_views(hearts@);
    let ghost pv = string_views(players@);
    let n = hearts.len();
    let mut keys: Vec<usize> = Vec::new();
    let mut i: usize = 0;
    while i < n
        invariant
            n == hearts@.len(),
            hv == string_views(hearts@),
            pv == string_views(players@),
            i <= n,
            keys@.len() == i,
            forall|j: int| 0 <= j < i ==> keys@[j] == rank_key(pv, #[trigger] hv[j]),
        decreases n - i,
    {
        let k = rank_of(players, &hearts[i]);
        keys.push(k);
        i = i + 1;
    }
    let count = if players.len() == 0 {
        1
    } else {
        players.len()
    };
    let mut out: Vec<String> = Vec::new();
    let mut k: usize = 0;
    assert(string_views(out@) =~= ranked_upto(hv, pv, 0));
    while k < count
        invariant
            n == hearts@.len(),
            hv == string_views(hearts@),
            pv == string_views(players@),
            count == rank_count(pv),
            k <= count,
            keys@.len() == n,
            forall|j: int| 0 <= j < n ==> keys@[j] == rank_key(pv, #[trigger] hv[j]),
            string_views(out@) == ranked_upto(hv, pv, k as nat),
        decreases count - k,
    {
        let mut i: usize = 0;
        let ghost prefix = string_views(out@);
        assert(hv.take(0) =~= Seq::<Seq<char>>::empty());
        assert(hv.take(0).filter(has_rank(pv, k as int)) =~= Seq::<Seq<char>>::empty()) by {
            reveal(Seq::filter);
        }
        assert(string_views(out@) =~= prefix + hv.take(0).filter(has_rank(pv, k as int)));
        while i < n
            invariant
                n == hearts@.len(),
                hv == string_views(hearts@),
                i <= n,
                keys@.len() == n,
                forall|j: int| 0 <= j < n ==> keys@[j] == rank_key(pv, #[trigger] hv[j]),
                string_views(out@) == prefix + hv.take(i as int).filter(has_rank(pv, k as int)),
            decreases n - i,
        {
            assert(hv.take(i + 1) =~= hv.take(i as int).push(hv[i as int]));
            proof {
                hv.take(i as int).lemma_filter_push(hv[i as int], has_rank(pv, k as int));
            }
            if keys[i] == k {
                let h = hearts[i].clone();
                let ghost before = out@;
                out.push(h);
                assert(string_views(out@) =~= string_views(before).push(h@));
            }
            i = i + 1;
        }
        assert(hv.take(n as int) =~= hv);
        k = k + 1;
    }
    out
}

/// One line of the aura: the player's place in the list, counted from 1,
/// and the player's name.
pub struct RankedPlayer {
    pub rank: String,
    pub name: String,
}

/// The entries of a custom player list: its lines, each trimmed of
/// surrounding whitespace, with the empty ones left out.
pub open spec fn player_entries(text: Seq<char>) -> Seq<Seq<char>> {
    split_on(text, '\n').map_values(|l: Seq<char>| trim(l)).filter(|p: Seq<char>| p.len() > 0)
}

/// Reads the custom player list typed into the start window, one player per
/// line.
pub fn parse_player_list(text: &str) -> (r: Vec<String>)
    ensures
        string_views(r@) == player_entries(text@),
{
    let v = chars_of(text);
    let n = v.len();
    assert(v@.subrange(0, n as int) =~= text@);
    let lines = split_ranges(&v, 0, n, '\n');
    let ghost pieces = split_on(text@, '\n');
    let ghost trimmed = pieces.map_values(|l: Seq<char>| trim(l));
    let mut out: Vec<String> = Vec::new();
    let mut k: usize = 0;
    assert(trimmed.take(0) =~= Seq::<Seq<char>>::empty());
    assert(string_views(out@) =~= trimmed.take(0).filter(|p: Seq<char>| p.len() > 0)) by {
        reveal(Seq::filter);
    }
    while k < lines.len()
        invariant
            v@ == text@,
            n == v@.len(),
            lines@.len() == pieces.len(),
            trimmed == pieces.map_values(|l: Seq<char>| trim(l)),
            pieces == split_on(text@, '\n'),
            forall|j: int|
                0 <= j < lines@.len() ==> 0 <= #[trigger] lines@[j].0 <= lines@[j].1 <= n
                    && v@.subrange(lines@[j].0 as int, lines@[j].1 as int) == pieces[j],
            k <= lines@.len(),
            string_views(out@) == trimmed.take(k as int).filter(|p: Seq<char>| p.len() > 0),
        decreases lines@.len() - k,
    {
        let (lo, hi) = lines[k];
        let (a, b) = trim_range(&v, lo, hi);
        assert(trimmed[k as int] == trim(pieces[k as int]));
        assert(trimmed.take(k + 1) =~= trimmed.take(k as int).push(trimmed[k as int]));
        proof {
                trimmed.take(k as int).lemma_filter_push(trimmed[k as int], |p: Seq<char>| p.len() > 0);
            }
        if a < b {
            let player = substring(text, a, b);
            let ghost before = out@;
            out.push(player);
            assert(string_views(out@) =~= string_views(before).push(player@));
        }
        k = k + 1;
    }
    assert(trimmed.take(k as int) =~= trimmed);
    out
}

/// The Neltharion aura's settings: the custom player order.
pub struct NelthAura {
    pub player_list: Vec<String>,
}

impl NelthAura {
    pub fn new(player_list: Vec<String>) -> (a: Self)
        ensures
            a.player_list == player_list,
    {
        NelthAura { player_list }
    }

    /// The height of one line of the aura, in pixels.
    pub fn item_height(&self) -> (h: u32)
        ensures
            h == 56,
    {
        56
    }

    /// The width of the aura, in pixels.
    pub fn item_width(&self) -> (w: u32)
        ensures
            w == 256,
    {
        256
    }

    /// The window size that shows every debuffed player: (width, height).
    pub fn required_size(&self, state: &NelthSharedState) -> (r: (u32, u128))
        ensures
            r.0 == 256,
            r.1 == state@.len() * 56,
    {
        let width = self.item_width();
        let count = state.volcanic_hearts.len() as u128;
        let item = self.item_height() as u128;
        assert(count <= 0xffff_ffff_ffff_ffff);
        let height = count * item;
        (width, height)
    }

    /// The lines of the aura: the debuffed players sorted stably by their
    /// place in the custom player list, each with its rank counted from 1.
    pub fn items(&self, state: &NelthSharedState) -> (r: Vec<RankedPlayer>)
        ensures
            r@.len() == ranked(state@, string_views(self.player_list@)).len(),
            forall|i: int|
                0 <= i < r@.len() ==> #[trigger] r@[i].rank@ == decimal((i + 1) as nat)
                    && r@[i].name@ == ranked(state@, string_views(self.player_list@))[i],
    {
        let hearts = sorted_by_rank(&state.volcanic_hearts, &self.player_list);
        let ghost hv = string_views(hearts@);
        let mut items: Vec<RankedPlayer> = Vec::new();
        let mut i: usize = 0;
        while i < hearts.len()
            invariant
                hv == string_views(hearts@),
                i <= hearts@.len(),
                items@.len() == i,
                forall|j: int|
                    0 <= j < i ==> #[trigger] items@[j].rank@ == decimal((j + 1) as nat)
                        && items@[j].name@ == hv[j],
            decreases hearts@.len() - i,
        {
            let rank = decimal_string((i + 1) as u64);
            let name = hearts[i].clone();
            items.push(RankedPlayer { rank, name });
            i = i + 1;
        }
        items
    }
}

} // verus!
