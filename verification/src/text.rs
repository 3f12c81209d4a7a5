//! Character sequences: joining pieces with a separator, runs of one character.

use vstd::prelude::*;

verus! {

/// The pieces written one after another with `sep` between neighbours.
pub open spec fn join(parts: Seq<Seq<char>>, sep: Seq<char>) -> Seq<char>
    decreases parts.len(),
{
    if parts.len() == 0 {
        Seq::empty()
    } else if parts.len() == 1 {
        parts[0]
    } else {
        join(parts.drop_last(), sep) + sep + parts.last()
    }
}

/// `n` copies of the character `c`.
pub open spec fn run(c: char, n: nat) -> Seq<char> {
    Seq::new(n, |i: int| c)
}

/// How often the character `c` occurs in `s`.
pub open spec fn count(s: Seq<char>, c: char) -> nat
    decreases s.len(),
{
    if s.len() == 0 {
        0
    } else {
        count(s.drop_last(), c) + if s.last() == c { 1nat } else { 0nat }
    }
}

/// Joining one piece more: the separator comes before it unless it is the first.
pub proof fn lemma_join_push(parts: Seq<Seq<char>>, sep: Seq<char>, piece: Seq<char>)
    ensures
        join(parts.push(piece), sep) == if parts.len() == 0 {
            piece
        } else {
            join(parts, sep) + sep + piece
        },
{
    let all = parts.push(piece);
    assert(all.drop_last() =~= parts);
    assert(all.last() == piece);
}

/// Joins the strings of `parts` with `sep` between neighbours.
pub fn join_strings(parts: &[String], sep: &str) -> (out: String)
    ensures
        out@ == join(parts.deep_view(), sep@),
{
    let mut out = String::new();
    let mut i: usize = 0;
    while i < parts.len()
        invariant
            i <= parts.len(),
            out@ == join(parts.deep_view().take(i as int), sep@),
        decreases parts.len() - i,
    {
        proof {
            let done = parts.deep_view().take(i as int);
            lemma_join_push(done, sep@, parts[i as int]@);
            assert(parts.deep_view().take(i + 1) =~= done.push(parts[i as int]@));
        }
        if i > 0 {
            out.append(sep);
        }
        out.append(parts[i].as_str());
        i += 1;
    }
    proof {
        assert(parts.deep_view().take(i as int) =~= parts.deep_view());
    }
    out
}

/// A string of `n` dashes.
pub fn dashes(n: usize) -> (out: String)
    ensures
        out@ == run('-', n as nat),
{
    let mut out = String::new();
    let mut i: usize = 0;
    while i < n
        invariant
            i <= n,
            out@ == run('-', i as nat),
        decreases n - i,
    {
        proof {
            reveal_strlit("-");
        }
        out.append("-");
        i += 1;
        proof {
            assert(out@ =~= run('-', i as nat));
        }
    }
    proof {
        assert(out@ =~= run('-', n as nat));
    }
    out
}

/// How often the character `c` occurs in all the pieces together.
pub open spec fn total(parts: Seq<Seq<char>>, c: char) -> nat
    decreases parts.len(),
{
    if parts.len() == 0 {
        0
    } else {
        total(parts.drop_last(), c) + count(parts.last(), c)
    }
}

/// A character more at the end counts once more where it is the one counted.
pub proof fn lemma_count_push(s: Seq<char>, last: char, c: char)
    ensures
        count(s.push(last), c) == count(s, c) + if last == c { 1nat } else { 0nat },
{
    assert(s.push(last).drop_last() =~= s);
}

/// What two texts hold, they hold together.
pub proof fn lemma_count_concat(a: Seq<char>, b: Seq<char>, c: char)
    ensures
        count(a + b, c) == count(a, c) + count(b, c),
    decreases b.len(),
{
    if b.len() == 0 {
        assert(a + b =~= a);
    } else {
        assert((a + b).drop_last() =~= a + b.drop_last());
        lemma_count_concat(a, b.drop_last(), c);
    }
}

/// A run of one character holds that character `n` times and no other.
pub proof fn lemma_count_run(of: char, n: nat, c: char)
    ensures
        count(run(of, n), c) == if of == c { n } else { 0 },
    decreases n,
{
    if n > 0 {
        assert(run(of, n).drop_last() =~= run(of, (n - 1) as nat));
        lemma_count_run(of, (n - 1) as nat, c);
    }
}

/// Pieces that each lack a character lack it together.
pub proof fn lemma_total_without(parts: Seq<Seq<char>>, c: char)
    requires
        forall|i: int| 0 <= i < parts.len() ==> count(#[trigger] parts[i], c) == 0,
    ensures
        total(parts, c) == 0,
    decreases parts.len(),
{
    if parts.len() > 0 {
        let before = parts.drop_last();
        assert forall|i: int| 0 <= i < before.len() implies count(#[trigger] before[i], c)
            == 0 by {
            assert(before[i] == parts[i]);
        }
        lemma_total_without(before, c);
    }
}

/// A joined text holds what its pieces hold, and the separator once for every
/// piece but the first.
pub proof fn lemma_count_join(parts: Seq<Seq<char>>, sep: Seq<char>, c: char)
    ensures
        count(join(parts, sep), c) == total(parts, c) + if parts.len() == 0 {
            0
        } else {
            (parts.len() - 1) * count(sep, c)
        },
    decreases parts.len(),
{
    if parts.len() == 1 {
        assert(total(parts.drop_last(), c) == 0);
    } else if parts.len() > 1 {
        let before = parts.drop_last();
        lemma_count_join(before, sep, c);
        lemma_count_concat(join(before, sep), sep, c);
        lemma_count_concat(join(before, sep) + sep, parts.last(), c);
        let k = count(sep, c) as int;
        let n = parts.len() as int;
        assert((n - 2) * k + k == (n - 1) * k) by (nonlinear_arith);
    }
}

/// What texts of one, two and three characters hold of a character.
pub proof fn lemma_count_short(a: char, b: char, d: char, c: char)
    ensures
        count(seq![a], c) == if a == c { 1nat } else { 0nat },
        count(seq![a, b], c) == count(seq![a], c) + if b == c { 1nat } else { 0nat },
        count(seq![a, b, d], c) == count(seq![a, b], c) + if d == c { 1nat } else { 0nat },
{
    let none = Seq::<char>::empty();
    assert(seq![a] =~= none.push(a));
    assert(seq![a, b] =~= seq![a].push(b));
    assert(seq![a, b, d] =~= seq![a, b].push(d));
    lemma_count_push(none, a, c);
    lemma_count_push(seq![a], b, c);
    lemma_count_push(seq![a, b], d, c);
}

/// Pieces and a separator that lack a character give a joined text without it.
pub proof fn lemma_join_without(parts: Seq<Seq<char>>, sep: Seq<char>, c: char)
    requires
        forall|i: int| 0 <= i < parts.len() ==> count(#[trigger] parts[i], c) == 0,
        count(sep, c) == 0,
    ensures
        count(join(parts, sep), c) == 0,
{
    lemma_total_without(parts, c);
    lemma_count_join(parts, sep, c);
    if parts.len() > 0 {
        let n = parts.len() as int;
        let k = count(sep, c) as int;
        assert((n - 1) * k == 0) by (nonlinear_arith)
            requires
                k == 0,
        ;
    }
}

/// Lines without a newline, joined by newlines, hold one newline fewer than
/// there are lines.
pub proof fn lemma_count_newlines(lines: Seq<Seq<char>>)
    requires
        lines.len() > 0,
        forall|i: int| 0 <= i < lines.len() ==> count(#[trigger] lines[i], '\n') == 0,
    ensures
        count(join(lines, seq!['\n']), '\n') == lines.len() - 1,
{
    lemma_total_without(lines, '\n');
    lemma_count_join(lines, seq!['\n'], '\n');
    lemma_count_short('\n', '\n', '\n', '\n');
    let n = lines.len() as int;
    let k = count(seq!['\n'], '\n') as int;
    assert((n - 1) * k == n - 1) by (nonlinear_arith)
        requires
            k == 1,
    ;
}

/// Joining with a piece in front: the separator follows it unless it is the
/// only one.
pub proof fn lemma_join_front(first: Seq<char>, rest: Seq<Seq<char>>, sep: Seq<char>)
    ensures
        join(seq![first] + rest, sep) == if rest.len() == 0 {
            first
        } else {
            first + sep + join(rest, sep)
        },
    decreases rest.len(),
{
    let all = seq![first] + rest;
    if rest.len() == 0 {
        assert(all =~= seq![first]);
    } else {
        assert(all.drop_last() =~= seq![first] + rest.drop_last());
        assert(all.last() == rest.last());
        lemma_join_front(first, rest.drop_last(), sep);
        if rest.len() == 1 {
            assert(join(rest, sep) == rest.last());
            assert(join(all, sep) =~= first + sep + join(rest, sep));
        } else {
            assert(join(all, sep) =~= first + sep + join(rest, sep));
        }
    }
}

/// Two joined texts are equally long where piece by piece, and separator by
/// separator, they are.
pub proof fn lemma_join_len(a: Seq<Seq<char>>, b: Seq<Seq<char>>, sep_a: Seq<char>, sep_b: Seq<char>)
    requires
        a.len() == b.len(),
        forall|i: int| 0 <= i < a.len() ==> (#[trigger] a[i]).len() == b[i].len(),
        sep_a.len() == sep_b.len(),
    ensures
        join(a, sep_a).len() == join(b, sep_b).len(),
    decreases a.len(),
{
    if a.len() == 1 {
        assert(a[0].len() == b[0].len());
    } else if a.len() > 1 {
        let a_before = a.drop_last();
        let b_before = b.drop_last();
        assert forall|i: int| 0 <= i < a_before.len() implies (#[trigger] a_before[i]).len()
            == b_before[i].len() by {
            assert(a_before[i] == a[i]);
            assert(b_before[i] == b[i]);
        }
        lemma_join_len(a_before, b_before, sep_a, sep_b);
        assert(a[a.len() - 1].len() == b[a.len() - 1].len());
    }
}

/// The text holds the character `c` nowhere.
pub open spec fn free_of(text: Seq<char>, c: char) -> bool {
    forall|i: int| 0 <= i < text.len() ==> #[trigger] text[i] != c
}

/// Pieces and a separator that are free of a character give a joined text
/// that is free of it.
pub proof fn lemma_join_free_of(parts: Seq<Seq<char>>, sep: Seq<char>, c: char)
    requires
        forall|i: int| 0 <= i < parts.len() ==> free_of(#[trigger] parts[i], c),
        free_of(sep, c),
    ensures
        free_of(join(parts, sep), c),
    decreases parts.len(),
{
    if parts.len() == 1 {
        assert(free_of(parts[0], c));
    } else if parts.len() > 1 {
        let before = parts.drop_last();
        assert forall|i: int| 0 <= i < before.len() implies free_of(#[trigger] before[i], c) by {
            assert(before[i] == parts[i]);
        }
        lemma_join_free_of(before, sep, c);
        assert(free_of(parts[parts.len() - 1], c));
    }
}

} // verus!
