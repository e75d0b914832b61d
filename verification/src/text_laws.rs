//! What the text operations are, stated without their definitions:
//! splitting undoes joining, the two-space separator found is the first
//! one, decimal numerals have the value of the number, and whitespace is
//! exactly Unicode's `White_Space`.
use vstd::prelude::*;
use crate::text::{decimal, digit_char, first_double_space, is_whitespace, split_on};

verus! {

broadcast use vstd::seq_lib::group_seq_properties;

/// The pieces of `fields` joined with `sep` between neighbours.
pub open spec fn join_on(fields: Seq<Seq<char>>, sep: char) -> Seq<char>
    decreases fields.len(),
{
    if fields.len() <= 1 {
        if fields.len() == 0 {
            Seq::empty()
        } else {
            fields[0]
        }
    } else {
        join_on(fields.drop_last(), sep) + seq![sep] + fields.last()
    }
}

/// Splitting at a separator splits each side on its own.
pub proof fn lemma_split_on_concat(a: Seq<char>, b: Seq<char>, sep: char)
    ensures
        split_on(a + seq![sep] + b, sep) == split_on(a, sep) + split_on(b, sep),
    decreases b.len(),
{
    let s = a + seq![sep] + b;
    if b.len() == 0 {
        assert(s.drop_last() =~= a);
        assert(s.last() == sep);
        assert(split_on(b, sep) =~= seq![Seq::<char>::empty()]);
        assert(split_on(a, sep).push(Seq::<char>::empty()) =~= split_on(a, sep) + split_on(
            b,
            sep,
        ));
    } else {
        assert(s.drop_last() =~= a + seq![sep] + b.drop_last());
        assert(s.last() == b.last());
        lemma_split_on_concat(a, b.drop_last(), sep);
        crate::text::lemma_split_on_nonempty(b.drop_last(), sep);
        let p = split_on(a, sep);
        let q = split_on(b.drop_last(), sep);
        if b.last() == sep {
            assert((p + q).push(Seq::<char>::empty()) =~= p + q.push(Seq::<char>::empty()));
        } else {
            assert((p + q).update((p + q).len() - 1, (p + q).last().push(b.last())) =~= p
                + q.update(q.len() - 1, q.last().push(b.last())));
        }
    }
}

/// A sequence without the separator is a single piece.
pub proof fn lemma_split_on_without_sep(s: Seq<char>, sep: char)
    requires
        !s.contains(sep),
    ensures
        split_on(s, sep) == seq![s],
    decreases s.len(),
{
    if s.len() > 0 {
        assert(!s.drop_last().contains(sep)) by {
            if s.drop_last().contains(sep) {
                let j = choose|j: int| 0 <= j < s.drop_last().len() && s.drop_last()[j] == sep;
                assert(s[j] == sep);
            }
        }
        lemma_split_on_without_sep(s.drop_last(), sep);
        assert(s[s.len() - 1] == s.last());
        assert(s.drop_last().push(s.last()) =~= s);
        assert(seq![s.drop_last()].update(0, s.drop_last().push(s.last())) =~= seq![s]);
    } else {
        assert(s =~= Seq::<char>::empty());
    }
}

/// Splitting pieces that hold no separator, joined with it, gives back the
/// pieces.
pub proof fn lemma_split_on_join(fields: Seq<Seq<char>>, sep: char)
    requires
        fields.len() >= 1,
        forall|i: int| 0 <= i < fields.len() ==> !(#[trigger] fields[i]).contains(sep),
    ensures
        split_on(join_on(fields, sep), sep) == fields,
    decreases fields.len(),
{
    if fields.len() == 1 {
        lemma_split_on_without_sep(fields[0], sep);
        assert(seq![fields[0]] =~= fields);
    } else {
        let init = fields.drop_last();
        assert forall|i: int| 0 <= i < init.len() implies !(#[trigger] init[i]).contains(sep) by {
            assert(init[i] == fields[i]);
        }
        lemma_split_on_join(init, sep);
        assert(!fields[fields.len() - 1].contains(sep));
        lemma_split_on_without_sep(fields.last(), sep);
        lemma_split_on_concat(join_on(init, sep), fields.last(), sep);
        assert(init + seq![fields.last()] =~= fields);
    }
}

/// A sequence with no two consecutive spaces has no double space.
pub proof fn lemma_first_double_space_absent(s: Seq<char>)
    requires
        forall|i: int| 0 <= i < s.len() - 1 ==> !(s[i] == ' ' && #[trigger] s[i + 1] == ' '),
    ensures
        first_double_space(s) is None,
    decreases s.len(),
{
    if s.len() >= 2 {
        let t = s.drop_last();
        assert forall|i: int| 0 <= i < t.len() - 1 implies !(t[i] == ' ' && #[trigger] t[i + 1]
            == ' ') by {
            assert(t[i] == s[i] && t[i + 1] == s[i + 1]);
        }
        lemma_first_double_space_absent(t);
        assert(s[s.len() - 1] == s.last());
        assert(!(s[s.len() - 2] == ' ' && s[(s.len() - 2) + 1] == ' '));
    }
}

/// The separator found in `a + "  " + b` is the one after `a`, when `a`
/// has no double space and does not end in a space.
pub proof fn lemma_first_double_space_after(a: Seq<char>, b: Seq<char>)
    requires
        forall|i: int| 0 <= i < a.len() - 1 ==> !(a[i] == ' ' && #[trigger] a[i + 1] == ' '),
        a.len() == 0 || a.last() != ' ',
    ensures
        first_double_space(a + seq![' ', ' '] + b) == Some(a.len() as int),
{
    let s = a + seq![' ', ' '] + b;
    let k = a.len() + 2;
    let p = s.subrange(0, k as int);
    let q = a + seq![' '];
    assert(p.drop_last() =~= q);
    assert forall|i: int| 0 <= i < q.len() - 1 implies !(q[i] == ' ' && #[trigger] q[i + 1]
        == ' ') by {
        if i + 1 < a.len() {
            assert(q[i] == a[i] && q[i + 1] == a[i + 1]);
        } else {
            assert(q[i] == a[i]);
            assert(a[a.len() - 1] == a.last());
        }
    }
    lemma_first_double_space_absent(q);
    assert(p[p.len() - 2] == ' ' && p.last() == ' ');
    crate::text::lemma_first_double_space_prefix(s, k as int);
}

/// The number a numeral of decimal digits denotes, most significant digit
/// first.
pub open spec fn numeral_value(s: Seq<char>) -> int
    decreases s.len(),
{
    if s.len() == 0 {
        0
    } else {
        numeral_value(s.drop_last()) * 10 + (s.last() as int - '0' as int)
    }
}

/// `decimal(n)` is the base-10 numeral of `n`: non-empty, made of the
/// digits `0`-`9`, without a leading zero (unless it is `0` itself), and
/// its digits read most significant first have the value `n`.
pub proof fn lemma_decimal_is_numeral(n: nat)
    ensures
        decimal(n).len() >= 1,
        decimal(n).len() == 1 <==> n < 10,
        forall|i: int| 0 <= i < decimal(n).len() ==> '0' <= #[trigger] decimal(n)[i] <= '9',
        decimal(n).len() > 1 ==> decimal(n)[0] != '0',
        numeral_value(decimal(n)) == n,
    decreases n,
{
    if n < 10 {
        assert(decimal(n) =~= seq![digit_char(n)]);
        assert(seq![digit_char(n)].drop_last() =~= Seq::<char>::empty());
        assert(digit_char(n) as int == 48 + n);
        assert(numeral_value(Seq::<char>::empty()) == 0);
        assert(decimal(n).last() == digit_char(n));
        assert(numeral_value(decimal(n)) == n);
    } else {
        lemma_decimal_is_numeral(n / 10);
        let p = decimal(n / 10);
        let s = decimal(n);
        assert(s == p.push(digit_char(n % 10)));
        assert(s.drop_last() =~= p);
        assert(s[0] == p[0]);
        assert forall|i: int| 0 <= i < s.len() implies '0' <= #[trigger] s[i] <= '9' by {
            if i < p.len() {
                assert(s[i] == p[i]);
            }
        }
        if p.len() == 1 {
            assert(p =~= seq![digit_char((n / 10) as nat)]);
            assert(1 <= n / 10 < 10);
            assert(s[0] == digit_char((n / 10) as nat));
        }
        vstd::arithmetic::div_mod::lemma_fundamental_div_mod(n as int, 10);
        assert(digit_char((n % 10) as nat) as int == 48 + n % 10);
        assert(numeral_value(s) == numeral_value(p) * 10 + n % 10);
    }
}

/// The code points of Unicode's `White_Space` property.
pub open spec fn white_space_code_points() -> Seq<u32> {
    seq![
        0x9u32, 0xa, 0xb, 0xc, 0xd, 0x20, 0x85, 0xa0, 0x1680, 0x2000, 0x2001, 0x2002, 0x2003,
        0x2004, 0x2005, 0x2006, 0x2007, 0x2008, 0x2009, 0x200a, 0x2028, 0x2029, 0x202f, 0x205f,
        0x3000,
    ]
}

/// A character is whitespace exactly when it is one of the 25 code points
/// of Unicode's `White_Space`; letters of every script are not.
pub proof fn lemma_whitespace_is_unicode_white_space(c: char)
    ensures
        is_whitespace(c) <==> white_space_code_points().contains(c as u32),
{
    let u = c as u32;
    let w = white_space_code_points();
    if is_whitespace(c) {
        if 0x2000 <= u <= 0x200a {
            assert(w[(u - 0x2000 + 9) as int] == u);
        } else if u == 0x9 {
            assert(w[0] == u);
        } else if u == 0xa {
            assert(w[1] == u);
        } else if u == 0xb {
            assert(w[2] == u);
        } else if u == 0xc {
            assert(w[3] == u);
        } else if u == 0xd {
            assert(w[4] == u);
        } else if u == 0x20 {
            assert(w[5] == u);
        } else if u == 0x85 {
            assert(w[6] == u);
        } else if u == 0xa0 {
            assert(w[7] == u);
        } else if u == 0x1680 {
            assert(w[8] == u);
        } else if u == 0x2028 {
            assert(w[20] == u);
        } else if u == 0x2029 {
            assert(w[21] == u);
        } else if u == 0x202f {
            assert(w[22] == u);
        } else if u == 0x205f {
            assert(w[23] == u);
        } else {
            assert(w[24] == u);
        }
    }
    if w.contains(u) {
        let j = choose|j: int| 0 <= j < w.len() && w[j] == u;
        assert(0 <= j < 25);
    }
}

} // verus!
