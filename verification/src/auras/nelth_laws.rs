//! What holds of the Neltharion aura across events and for every input:
//! removals, the display order, and the custom player list.
use vstd::prelude::*;
use crate::combat_log::LineEvent;
use crate::auras::nelth_aura::{
    has_rank, lemma_rank_key_bounds, next_hearts, other_than, player_entries, rank_count,
    rank_key, ranked, ranked_upto,
};
use crate::text::{is_whitespace, split_on, trim, trim_end, trim_start};
use crate::text_laws::{
    lemma_split_on_without_sep, lemma_whitespace_is_unicode_white_space,
    white_space_code_points,
};

verus! {

broadcast use vstd::seq_lib::group_seq_properties;

proof fn lemma_filter_keeps_all(s: Seq<Seq<char>>, p: spec_fn(Seq<char>) -> bool)
    requires
        forall|i: int| 0 <= i < s.len() ==> p(#[trigger] s[i]),
    ensures
        s.filter(p) == s,
    decreases s.len(),
{
    reveal(Seq::filter);
    if s.len() > 0 {
        lemma_filter_keeps_all(s.drop_last(), p);
        assert(s.drop_last().push(s.last()) =~= s);
    }
}

proof fn lemma_filter_keeps_none(s: Seq<Seq<char>>, p: spec_fn(Seq<char>) -> bool)
    requires
        forall|i: int| 0 <= i < s.len() ==> !p(#[trigger] s[i]),
    ensures
        s.filter(p) == Seq::<Seq<char>>::empty(),
    decreases s.len(),
{
    reveal(Seq::filter);
    if s.len() > 0 {
        lemma_filter_keeps_none(s.drop_last(), p);
    } else {
        assert(s =~= Seq::<Seq<char>>::empty());
    }
}

proof fn lemma_filter_satisfies(s: Seq<Seq<char>>, p: spec_fn(Seq<char>) -> bool)
    ensures
        forall|i: int| 0 <= i < s.filter(p).len() ==> p(#[trigger] s.filter(p)[i]),
{
    assert forall|i: int| 0 <= i < s.filter(p).len() implies p(#[trigger] s.filter(p)[i]) by {
        s.lemma_filter_pred(p, i);
    }
}

/// After the debuff is removed from a player, no entry of that player is
/// left.
pub proof fn lemma_removed_player_absent(hearts: Seq<Seq<char>>, name: Seq<char>)
    ensures
        !next_hearts(hearts, LineEvent::HeartRemoved(name)).contains(name),
{
    lemma_filter_satisfies(hearts, other_than(name));
}

/// Applying the debuff to a player who did not carry it and removing it
/// again gives back the list as it was.
pub proof fn lemma_apply_then_remove_restores(hearts: Seq<Seq<char>>, name: Seq<char>)
    requires
        !hearts.contains(name),
    ensures
        next_hearts(
            next_hearts(hearts, LineEvent::HeartApplied(name)),
            LineEvent::HeartRemoved(name),
        ) == hearts,
{
    hearts.lemma_filter_push(name, other_than(name));
    assert forall|i: int| 0 <= i < hearts.len() implies other_than(name)(#[trigger] hearts[i]) by {
        assert(hearts.contains(hearts[i]));
    }
    lemma_filter_keeps_all(hearts, other_than(name));
}

/// Removing the debuff from nobody's list leaves it empty.
pub proof fn lemma_removal_from_empty(name: Seq<char>)
    ensures
        next_hearts(Seq::<Seq<char>>::empty(), LineEvent::HeartRemoved(name)) == Seq::<
            Seq<char>,
        >::empty(),
{
    lemma_filter_keeps_none(Seq::<Seq<char>>::empty(), other_than(name));
}

/// A removal keeps the other players in their order: removing from a list
/// with one more entry at its end gives the removal from the shorter list,
/// with that entry kept at the end unless it is the removed player.
pub proof fn lemma_removal_keeps_order(hearts: Seq<Seq<char>>, last: Seq<char>, name: Seq<char>)
    ensures
        next_hearts(hearts.push(last), LineEvent::HeartRemoved(name)) == if last == name {
            next_hearts(hearts, LineEvent::HeartRemoved(name))
        } else {
            next_hearts(hearts, LineEvent::HeartRemoved(name)).push(last)
        },
{
    hearts.lemma_filter_push(last, other_than(name));
}

/// A player on the custom list sorts by its first position there.
pub proof fn lemma_rank_key_is_position(players: Seq<Seq<char>>, name: Seq<char>, i: int)
    requires
        0 <= i < players.len(),
        players[i] == name,
        forall|j: int| 0 <= j < i ==> players[j] != name,
    ensures
        rank_key(players, name) == i,
{
    players.index_of_first_ensures(name);
    assert(players.contains(name));
}

/// A player missing from the custom list sorts first, with key 0.
pub proof fn lemma_rank_key_unlisted(players: Seq<Seq<char>>, name: Seq<char>)
    requires
        !players.contains(name),
    ensures
        rank_key(players, name) == 0,
{
    players.index_of_first_ensures(name);
}

/// A player that comes before another on the custom list is shown before
/// it.
pub proof fn lemma_listed_order_shown(
    hearts: Seq<Seq<char>>,
    players: Seq<Seq<char>>,
    p: Seq<char>,
    q: Seq<char>,
    ip: int,
    iq: int,
)
    requires
        0 <= ip < iq < players.len(),
        players[ip] == p,
        players[iq] == q,
        forall|j: int| 0 <= j < ip ==> players[j] != p,
        forall|j: int| 0 <= j < iq ==> players[j] != q,
    ensures
        forall|a: int, b: int|
            0 <= a < ranked(hearts, players).len() && 0 <= b < ranked(hearts, players).len()
                && #[trigger] ranked(hearts, players)[a] == q && #[trigger] ranked(
                hearts,
                players,
            )[b] == p ==> b < a,
{
    lemma_rank_key_is_position(players, p, ip);
    lemma_rank_key_is_position(players, q, iq);
    lemma_ranked_sorted(hearts, players);
    let rk = ranked(hearts, players);
    assert forall|a: int, b: int|
        0 <= a < rk.len() && 0 <= b < rk.len() && #[trigger] rk[a] == q && #[trigger] rk[b]
            == p implies b < a by {
        if a < b {
            assert(rank_key(players, rk[a]) <= rank_key(players, rk[b]));
        }
    }
}

/// Every entry up to rank `k` has a sort key below `k`, and keys never
/// decrease along the sequence.
proof fn lemma_ranked_upto_sorted(hearts: Seq<Seq<char>>, players: Seq<Seq<char>>, k: nat)
    ensures
        forall|i: int|
            0 <= i < ranked_upto(hearts, players, k).len() ==> 0 <= #[trigger] rank_key(
                players,
                ranked_upto(hearts, players, k)[i],
            ) < k,
        forall|i: int, j: int|
            0 <= i < j < ranked_upto(hearts, players, k).len() ==> rank_key(
                players,
                #[trigger] ranked_upto(hearts, players, k)[i],
            ) <= rank_key(players, #[trigger] ranked_upto(hearts, players, k)[j]),
    decreases k,
{
    if k > 0 {
        let prev = ranked_upto(hearts, players, (k - 1) as nat);
        let bucket = hearts.filter(has_rank(players, k - 1));
        let all = ranked_upto(hearts, players, k);
        lemma_ranked_upto_sorted(hearts, players, (k - 1) as nat);
        lemma_filter_satisfies(hearts, has_rank(players, k - 1));
        assert(all == prev + bucket);
        assert forall|i: int| 0 <= i < all.len() implies 0 <= #[trigger] rank_key(
            players,
            all[i],
        ) < k by {
            if i < prev.len() {
                assert(all[i] == prev[i]);
            } else {
                assert(all[i] == bucket[i - prev.len()]);
            }
        }
        assert forall|i: int, j: int| 0 <= i < j < all.len() implies rank_key(
            players,
            #[trigger] all[i],
        ) <= rank_key(players, #[trigger] all[j]) by {
            if j < prev.len() {
                assert(all[i] == prev[i]);
                assert(all[j] == prev[j]);
            } else if i < prev.len() {
                assert(all[i] == prev[i]);
                assert(all[j] == bucket[j - prev.len()]);
            } else {
                assert(all[i] == bucket[i - prev.len()]);
                assert(all[j] == bucket[j - prev.len()]);
            }
        }
    }
}

/// The aura lists the debuffed players in order of their place in the
/// custom player list.
pub proof fn lemma_ranked_sorted(hearts: Seq<Seq<char>>, players: Seq<Seq<char>>)
    ensures
        forall|i: int, j: int|
            0 <= i < j < ranked(hearts, players).len() ==> rank_key(
                players,
                #[trigger] ranked(hearts, players)[i],
            ) <= rank_key(players, #[trigger] ranked(hearts, players)[j]),
{
    lemma_ranked_upto_sorted(hearts, players, rank_count(players));
}

proof fn lemma_ranked_upto_rank_filter(
    hearts: Seq<Seq<char>>,
    players: Seq<Seq<char>>,
    k: nat,
    r: int,
)
    ensures
        ranked_upto(hearts, players, k).filter(has_rank(players, r)) == if 0 <= r < k {
            hearts.filter(has_rank(players, r))
        } else {
            Seq::<Seq<char>>::empty()
        },
    decreases k,
{
    if k == 0 {
        lemma_filter_keeps_none(Seq::<Seq<char>>::empty(), has_rank(players, r));
    } else {
        let prev = ranked_upto(hearts, players, (k - 1) as nat);
        let bucket = hearts.filter(has_rank(players, k - 1));
        lemma_ranked_upto_rank_filter(hearts, players, (k - 1) as nat, r);
        Seq::filter_distributes_over_add(prev, bucket, has_rank(players, r));
        lemma_filter_satisfies(hearts, has_rank(players, k - 1));
        if r == k - 1 {
            lemma_filter_keeps_all(bucket, has_rank(players, r));
            assert(Seq::<Seq<char>>::empty() + bucket =~= bucket);
        } else {
            lemma_filter_keeps_none(bucket, has_rank(players, r));
            assert(prev.filter(has_rank(players, r)) + Seq::<Seq<char>>::empty() =~= prev.filter(
                has_rank(players, r),
            ));
        }
    }
}

/// Players of equal sort key keep the order in which the debuff reached
/// them: for every key, the entries with that key come in the same order in
/// the display as in the list of debuffed players.
pub proof fn lemma_ranked_stable(hearts: Seq<Seq<char>>, players: Seq<Seq<char>>, r: int)
    ensures
        ranked(hearts, players).filter(has_rank(players, r)) == hearts.filter(
            has_rank(players, r),
        ),
{
    lemma_ranked_upto_rank_filter(hearts, players, rank_count(players), r);
    if !(0 <= r < rank_count(players)) {
        assert forall|i: int| 0 <= i < hearts.len() implies !has_rank(players, r)(
            #[trigger] hearts[i],
        ) by {
            lemma_rank_key_bounds(players, hearts[i]);
        }
        lemma_filter_keeps_none(hearts, has_rank(players, r));
    }
}

proof fn lemma_ranked_upto_empty(players: Seq<Seq<char>>, k: nat)
    ensures
        ranked_upto(Seq::<Seq<char>>::empty(), players, k) == Seq::<Seq<char>>::empty(),
    decreases k,
{
    if k > 0 {
        lemma_ranked_upto_empty(players, (k - 1) as nat);
        lemma_filter_keeps_none(Seq::<Seq<char>>::empty(), has_rank(players, k - 1));
        assert(Seq::<Seq<char>>::empty() + Seq::<Seq<char>>::empty() =~= Seq::<
            Seq<char>,
        >::empty());
    }
}

proof fn lemma_ranked_upto_push(
    hearts: Seq<Seq<char>>,
    players: Seq<Seq<char>>,
    x: Seq<char>,
    k: nat,
)
    ensures
        ranked_upto(hearts.push(x), players, k).to_multiset() == if 0 <= rank_key(players, x)
            < k {
            ranked_upto(hearts, players, k).to_multiset().insert(x)
        } else {
            ranked_upto(hearts, players, k).to_multiset()
        },
    decreases k,
{
    broadcast use vstd::multiset::group_multiset_axioms;
    broadcast use vstd::seq_lib::lemma_multiset_commutative;

    if k == 0 {
    } else {
        lemma_ranked_upto_push(hearts, players, x, (k - 1) as nat);
        hearts.lemma_filter_push(x, has_rank(players, k - 1));
        let p1 = ranked_upto(hearts.push(x), players, (k - 1) as nat);
        let b1 = hearts.push(x).filter(has_rank(players, k - 1));
        let p0 = ranked_upto(hearts, players, (k - 1) as nat);
        let b0 = hearts.filter(has_rank(players, k - 1));
        assert((p1 + b1).to_multiset() =~= p1.to_multiset().add(b1.to_multiset()));
        assert((p0 + b0).to_multiset() =~= p0.to_multiset().add(b0.to_multiset()));
        if rank_key(players, x) == k - 1 {
            assert(b1.to_multiset() =~= b0.to_multiset().insert(x));
            assert(p1.to_multiset().add(b1.to_multiset()) =~= p0.to_multiset().add(
                b0.to_multiset(),
            ).insert(x));
        } else if 0 <= rank_key(players, x) < k - 1 {
            assert(p1.to_multiset().add(b1.to_multiset()) =~= p0.to_multiset().add(
                b0.to_multiset(),
            ).insert(x));
        } else {
            assert(p1.to_multiset().add(b1.to_multiset()) =~= p0.to_multiset().add(
                b0.to_multiset(),
            ));
        }
    }
}

proof fn lemma_ranked_upto_permutation(hearts: Seq<Seq<char>>, players: Seq<Seq<char>>, k: nat)
    requires
        forall|i: int| 0 <= i < hearts.len() ==> 0 <= #[trigger] rank_key(players, hearts[i]) < k,
    ensures
        ranked_upto(hearts, players, k).to_multiset() == hearts.to_multiset(),
    decreases hearts.len(),
{
    broadcast use vstd::multiset::group_multiset_axioms;

    if hearts.len() == 0 {
        lemma_ranked_upto_empty(players, k);
        assert(hearts =~= Seq::<Seq<char>>::empty());
    } else {
        let rest = hearts.drop_last();
        let x = hearts.last();
        assert(rest.push(x) =~= hearts);
        assert forall|i: int| 0 <= i < rest.len() implies 0 <= #[trigger] rank_key(
            players,
            rest[i],
        ) < k by {
            assert(rest[i] == hearts[i]);
        }
        lemma_ranked_upto_permutation(rest, players, k);
        assert(rank_key(players, hearts[hearts.len() - 1]) < k);
        lemma_ranked_upto_push(rest, players, x, k);
    }
}

/// The display holds exactly the debuffed players, each as often as in the
/// list: it is a permutation of it.
pub proof fn lemma_ranked_permutation(hearts: Seq<Seq<char>>, players: Seq<Seq<char>>)
    ensures
        ranked(hearts, players).to_multiset() == hearts.to_multiset(),
{
    assert forall|i: int| 0 <= i < hearts.len() implies 0 <= #[trigger] rank_key(
        players,
        hearts[i],
    ) < rank_count(players) by {
        lemma_rank_key_bounds(players, hearts[i]);
    }
    lemma_ranked_upto_permutation(hearts, players, rank_count(players));
}

/// A player the debuff was just applied to is shown by the aura.
pub proof fn lemma_applied_player_shown(
    hearts: Seq<Seq<char>>,
    players: Seq<Seq<char>>,
    name: Seq<char>,
)
    ensures
        ranked(next_hearts(hearts, LineEvent::HeartApplied(name)), players).contains(name),
{
    broadcast use vstd::seq_lib::group_to_multiset_ensures;

    let after = next_hearts(hearts, LineEvent::HeartApplied(name));
    lemma_ranked_permutation(after, players);
    assert(after[after.len() - 1] == name);
    assert(after.contains(name));
    assert(after.to_multiset().count(name) > 0);
    assert(ranked(after, players).to_multiset().count(name) > 0);
}

/// A player the debuff was just removed from is not shown by the aura.
pub proof fn lemma_removed_player_not_shown(
    hearts: Seq<Seq<char>>,
    players: Seq<Seq<char>>,
    name: Seq<char>,
)
    ensures
        !ranked(next_hearts(hearts, LineEvent::HeartRemoved(name)), players).contains(name),
{
    broadcast use vstd::seq_lib::group_to_multiset_ensures;

    let after = next_hearts(hearts, LineEvent::HeartRemoved(name));
    lemma_removed_player_absent(hearts, name);
    lemma_ranked_permutation(after, players);
    assert(after.to_multiset().count(name) == 0);
    assert(ranked(after, players).to_multiset().count(name) == 0);
}

proof fn lemma_trim_start_shape(s: Seq<char>)
    ensures
        trim_start(s).len() > 0 ==> !is_whitespace(trim_start(s)[0]),
    decreases s.len(),
{
    if s.len() > 0 && is_whitespace(s[0]) {
        lemma_trim_start_shape(s.drop_first());
    }
}

proof fn lemma_trim_end_shape(s: Seq<char>)
    ensures
        trim_end(s).len() <= s.len(),
        trim_end(s) == s.subrange(0, trim_end(s).len() as int),
        trim_end(s).len() > 0 ==> !is_whitespace(trim_end(s).last()),
    decreases s.len(),
{
    if s.len() > 0 && is_whitespace(s.last()) {
        lemma_trim_end_shape(s.drop_last());
        assert(s.drop_last().subrange(0, trim_end(s).len() as int) =~= s.subrange(
            0,
            trim_end(s).len() as int,
        ));
    } else {
        assert(s.subrange(0, s.len() as int) =~= s);
    }
}

/// Trimming a trimmed sequence changes nothing.
pub proof fn lemma_trim_idempotent(s: Seq<char>)
    ensures
        trim(trim(s)) == trim(s),
{
    let t = trim_start(s);
    let u = trim(s);
    lemma_trim_start_shape(s);
    lemma_trim_end_shape(t);
    if u.len() > 0 {
        assert(u[0] == t[0]);
        assert(trim_start(u) == u);
        assert(trim_end(u) == u);
    } else {
        assert(trim_start(u) == u);
    }
}

/// A one-line player list without whitespace (by Unicode's `White_Space`)
/// is read as that one player, unchanged, whatever script it is written in.
pub proof fn lemma_plain_player_line(text: Seq<char>)
    requires
        text.len() > 0,
        forall|i: int|
            0 <= i < text.len() ==> !white_space_code_points().contains(#[trigger] text[i] as u32),
    ensures
        player_entries(text) == seq![text],
{
    assert forall|i: int| 0 <= i < text.len() implies !is_whitespace(#[trigger] text[i]) by {
        lemma_whitespace_is_unicode_white_space(text[i]);
    }
    assert(!text.contains('\n')) by {
        if text.contains('\n') {
            let j = choose|j: int| 0 <= j < text.len() && text[j] == '\n';
            assert(!is_whitespace(text[j]));
        }
    }
    lemma_split_on_without_sep(text, '\n');
    assert(!is_whitespace(text[0]));
    assert(trim_start(text) == text);
    assert(text.last() == text[text.len() - 1]);
    assert(trim_end(text) == text);
    let trimmed = split_on(text, '\n').map_values(|l: Seq<char>| trim(l));
    assert(trimmed =~= seq![text]);
    reveal(Seq::filter);
    assert(seq![text].drop_last() =~= Seq::<Seq<char>>::empty());
    assert(Seq::<Seq<char>>::empty().filter(|p: Seq<char>| p.len() > 0) =~= Seq::<
        Seq<char>,
    >::empty());
    assert(Seq::<Seq<char>>::empty().push(text) =~= seq![text]);
}

/// Every entry of a custom player list is non-empty and carries no
/// surrounding whitespace.
pub proof fn lemma_player_entries_trimmed(text: Seq<char>, i: int)
    requires
        0 <= i < player_entries(text).len(),
    ensures
        player_entries(text)[i].len() > 0,
        trim(player_entries(text)[i]) == player_entries(text)[i],
{
    let trimmed = crate::text::split_on(text, '\n').map_values(|l: Seq<char>| trim(l));
    let e = player_entries(text)[i];
    trimmed.lemma_filter_pred(|p: Seq<char>| p.len() > 0, i);
    assert(trimmed.filter(|p: Seq<char>| p.len() > 0).contains(e));
    trimmed.lemma_filter_contains_rev(|p: Seq<char>| p.len() > 0, e);
    let j = choose|j: int| 0 <= j < trimmed.len() && trimmed[j] == e;
    lemma_trim_idempotent(crate::text::split_on(text, '\n')[j]);
}

} // verus!
