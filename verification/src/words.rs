//! Words and phrases: splitting a source string into space-separated tokens,
//! joining a run of tokens back into a phrase, and squashing the spaces out of
//! a phrase.
//!
//! The separator is, deliberately, the single space character and nothing
//! else: pots are authored with single spaces between their words, joining
//! inserts single spaces, and squashing removes exactly what joining
//! inserts, so splitting and joining are inverse to one another and a
//! joined phrase measures as its bare tokens.  A run of spaces yields empty
//! tokens, every string yields at least one token, and other whitespace
//! stays inside its token.

use vstd::prelude::*;

use crate::font::advance_of;
use crate::font::lemma_advance_of_nonneg;
use crate::font::lemma_width_of_nonneg;
use crate::font::width_of;

verus! {

/// The tokens of a string, split on every single space.
pub open spec fn spec_split(s: Seq<char>) -> Seq<Seq<char>>
    decreases s.len(),
{
    if s.len() == 0 {
        seq![Seq::<char>::empty()]
    } else if s[0] == ' ' {
        seq![Seq::<char>::empty()] + spec_split(s.drop_first())
    } else {
        let rest = spec_split(s.drop_first());
        rest.update(0, seq![s[0]] + rest[0])
    }
}

/// The tokens joined back together with single spaces in between.
pub open spec fn spec_join(tokens: Seq<Seq<char>>) -> Seq<char>
    decreases tokens.len(),
{
    if tokens.len() == 0 {
        Seq::<char>::empty()
    } else if tokens.len() == 1 {
        tokens[0]
    } else {
        tokens[0] + seq![' '] + spec_join(tokens.drop_first())
    }
}

/// The tokens run together with nothing in between.
pub open spec fn spec_concat(tokens: Seq<Seq<char>>) -> Seq<char>
    decreases tokens.len(),
{
    if tokens.len() == 0 {
        Seq::<char>::empty()
    } else {
        tokens[0] + spec_concat(tokens.drop_first())
    }
}

/// The string with its spaces removed.
pub open spec fn squash(s: Seq<char>) -> Seq<char>
    decreases s.len(),
{
    if s.len() == 0 {
        Seq::<char>::empty()
    } else if s[0] == ' ' {
        squash(s.drop_first())
    } else {
        seq![s[0]] + squash(s.drop_first())
    }
}

/// A token: a string without spaces.
pub open spec fn space_free(s: Seq<char>) -> bool {
    forall|k: int| 0 <= k < s.len() ==> s[k] != ' '
}

pub proof fn lemma_split_len(s: Seq<char>)
    ensures
        spec_split(s).len() >= 1,
    decreases s.len(),
{
    if s.len() > 0 {
        lemma_split_len(s.drop_first());
    }
}

/// Every token of a split is space-free.
pub proof fn lemma_split_space_free(s: Seq<char>)
    ensures
        forall|k: int| 0 <= k < spec_split(s).len() ==> space_free(#[trigger] spec_split(s)[k]),
    decreases s.len(),
{
    if s.len() == 0 {
        assert(spec_split(s) == seq![Seq::<char>::empty()]);
        assert(space_free(spec_split(s)[0]));
    } else if s[0] == ' ' {
        lemma_split_space_free(s.drop_first());
        let rest = spec_split(s.drop_first());
        assert forall|k: int| 0 <= k < spec_split(s).len() implies space_free(
            #[trigger] spec_split(s)[k],
        ) by {
            if k == 0 {
                assert(spec_split(s)[0] =~= Seq::<char>::empty());
            } else {
                assert(spec_split(s)[k] == rest[k - 1]);
            }
        }
    } else {
        lemma_split_space_free(s.drop_first());
        lemma_split_len(s.drop_first());
        let rest = spec_split(s.drop_first());
        assert forall|k: int| 0 <= k < spec_split(s).len() implies space_free(
            #[trigger] spec_split(s)[k],
        ) by {
            if k == 0 {
                assert(spec_split(s)[0] == seq![s[0]] + rest[0]);
                assert(space_free(rest[0]));
                assert forall|j: int| 0 <= j < spec_split(s)[0].len() implies spec_split(s)[0][j]
                    != ' ' by {
                    if j == 0 {
                    } else {
                        assert(spec_split(s)[0][j] == rest[0][j - 1]);
                    }
                }
            } else {
                assert(spec_split(s)[k] == rest[k]);
            }
        }
    }
}

/// A space-free string splits into exactly itself.
pub proof fn lemma_split_clean(s: Seq<char>)
    requires
        space_free(s),
    ensures
        spec_split(s) == seq![s],
    decreases s.len(),
{
    if s.len() == 0 {
        assert(s =~= Seq::<char>::empty());
        assert(spec_split(s) =~= seq![s]);
    } else {
        assert(s[0] != ' ');
        lemma_split_clean(s.drop_first());
        lemma_split_len(s.drop_first());
        let rest = spec_split(s.drop_first());
        assert(rest[0] == s.drop_first());
        assert(seq![s[0]] + s.drop_first() =~= s);
        assert(spec_split(s) == rest.update(0, seq![s[0]] + rest[0]));
        assert(spec_split(s) =~= seq![s]);
    }
}

/// Splitting past a leading space-free token and its separating space yields
/// that token followed by the split of the remainder.
pub proof fn lemma_split_prefix(p: Seq<char>, t: Seq<char>)
    requires
        space_free(p),
    ensures
        spec_split(p + seq![' '] + t) == seq![p] + spec_split(t),
    decreases p.len(),
{
    let s = p + seq![' '] + t;
    if p.len() == 0 {
        assert(s[0] == ' ');
        assert(s.drop_first() =~= t);
        assert(p =~= Seq::<char>::empty());
        assert(seq![Seq::<char>::empty()] =~= seq![p]);
    } else {
        assert(s[0] == p[0]);
        assert(s[0] != ' ');
        assert(s.drop_first() =~= p.drop_first() + seq![' '] + t);
        lemma_split_prefix(p.drop_first(), t);
        let rest = spec_split(s.drop_first());
        assert(rest == seq![p.drop_first()] + spec_split(t));
        assert(rest[0] == p.drop_first());
        assert(seq![s[0]] + rest[0] =~= p);
        lemma_split_len(t);
        assert(rest.update(0, p) =~= seq![p] + spec_split(t));
        assert(spec_split(s) =~= seq![p] + spec_split(t));
    }
}

/// Splitting a joined run of space-free tokens recovers exactly those tokens.
pub proof fn lemma_split_join(tokens: Seq<Seq<char>>)
    requires
        tokens.len() >= 1,
        forall|k: int| 0 <= k < tokens.len() ==> space_free(#[trigger] tokens[k]),
    ensures
        spec_split(spec_join(tokens)) == tokens,
    decreases tokens.len(),
{
    if tokens.len() == 1 {
        lemma_split_clean(tokens[0]);
        assert(seq![tokens[0]] =~= tokens);
    } else {
        lemma_split_join(tokens.drop_first());
        lemma_split_prefix(tokens[0], spec_join(tokens.drop_first()));
        assert(seq![tokens[0]] + tokens.drop_first() =~= tokens);
    }
}

/// Appending one more token to a join appends a space and the token.
pub proof fn lemma_join_push(tokens: Seq<Seq<char>>, x: Seq<char>)
    requires
        tokens.len() >= 1,
    ensures
        spec_join(tokens.push(x)) == spec_join(tokens) + seq![' '] + x,
    decreases tokens.len(),
{
    if tokens.len() == 1 {
        assert(tokens.push(x)[0] == tokens[0]);
        assert(tokens.push(x).drop_first() =~= seq![x]);
        assert(spec_join(seq![x]) == x);
        assert(spec_join(tokens.push(x)) == tokens[0] + seq![' '] + x);
    } else {
        assert(tokens.push(x).drop_first() =~= tokens.drop_first().push(x));
        lemma_join_push(tokens.drop_first(), x);
        assert(tokens.push(x)[0] == tokens[0]);
        assert(tokens[0] + seq![' '] + (spec_join(tokens.drop_first()) + seq![' '] + x) =~= (
        tokens[0] + seq![' '] + spec_join(tokens.drop_first())) + seq![' '] + x);
    }
}

/// Appending one more token to a concatenation appends the token.
pub proof fn lemma_concat_push(tokens: Seq<Seq<char>>, x: Seq<char>)
    ensures
        spec_concat(tokens.push(x)) == spec_concat(tokens) + x,
    decreases tokens.len(),
{
    if tokens.len() == 0 {
        assert(tokens.push(x).drop_first() =~= Seq::<Seq<char>>::empty());
        assert(spec_concat(Seq::<Seq<char>>::empty()) =~= Seq::<char>::empty());
        assert(tokens.push(x)[0] == x);
        assert(x + Seq::<char>::empty() =~= x);
        assert(spec_concat(tokens) =~= Seq::<char>::empty());
        assert(spec_concat(tokens.push(x)) =~= spec_concat(tokens) + x);
    } else {
        assert(tokens.push(x).drop_first() =~= tokens.drop_first().push(x));
        lemma_concat_push(tokens.drop_first(), x);
        assert(tokens.push(x)[0] == tokens[0]);
        assert(tokens[0] + (spec_concat(tokens.drop_first()) + x) =~= (tokens[0] + spec_concat(
            tokens.drop_first(),
        )) + x);
    }
}

/// Squashing distributes over concatenation.
pub proof fn lemma_squash_add(a: Seq<char>, b: Seq<char>)
    ensures
        squash(a + b) == squash(a) + squash(b),
    decreases a.len(),
{
    if a.len() == 0 {
        assert(a + b =~= b);
        assert(squash(a) + squash(b) =~= squash(b));
    } else {
        assert((a + b)[0] == a[0]);
        assert((a + b).drop_first() =~= a.drop_first() + b);
        lemma_squash_add(a.drop_first(), b);
        if a[0] != ' ' {
            assert(seq![a[0]] + (squash(a.drop_first()) + squash(b)) =~= (seq![a[0]] + squash(
                a.drop_first(),
            )) + squash(b));
        }
    }
}

/// A space-free string squashes to itself.
pub proof fn lemma_squash_clean(s: Seq<char>)
    requires
        space_free(s),
    ensures
        squash(s) == s,
    decreases s.len(),
{
    if s.len() > 0 {
        lemma_squash_clean(s.drop_first());
        assert(seq![s[0]] + s.drop_first() =~= s);
    }
}

/// Squashing a join of space-free tokens leaves their bare concatenation.
pub proof fn lemma_squash_join(tokens: Seq<Seq<char>>)
    requires
        forall|k: int| 0 <= k < tokens.len() ==> space_free(#[trigger] tokens[k]),
    ensures
        squash(spec_join(tokens)) == spec_concat(tokens),
    decreases tokens.len(),
{
    if tokens.len() == 0 {
    } else if tokens.len() == 1 {
        lemma_squash_clean(tokens[0]);
        assert(spec_concat(tokens.drop_first()) =~= Seq::<char>::empty());
        assert(tokens[0] + Seq::<char>::empty() =~= tokens[0]);
    } else {
        lemma_squash_join(tokens.drop_first());
        lemma_squash_add(tokens[0] + seq![' '], spec_join(tokens.drop_first()));
        assert(tokens[0] + seq![' '] + spec_join(tokens.drop_first()) =~= (tokens[0] + seq![' '])
            + spec_join(tokens.drop_first()));
        lemma_squash_add(tokens[0], seq![' ']);
        lemma_squash_clean(tokens[0]);
        assert(seq![' '][0] == ' ');
        assert(seq![' '].drop_first() =~= Seq::<char>::empty());
        assert(squash(Seq::<char>::empty()) =~= Seq::<char>::empty());
        assert(squash(seq![' ']) =~= Seq::<char>::empty());
        assert(tokens[0] + Seq::<char>::empty() =~= tokens[0]);
    }
}

/// Removing the spaces from a text never widens it.
pub proof fn lemma_width_of_squash_le(advances: Seq<(char, u32)>, s: Seq<char>)
    ensures
        width_of(advances, squash(s)) <= width_of(advances, s),
    decreases s.len(),
{
    if s.len() == 0 {
    } else {
        lemma_width_of_squash_le(advances, s.drop_first());
        lemma_advance_of_nonneg(advances, s[0]);
        if s[0] != ' ' {
            let q = seq![s[0]] + squash(s.drop_first());
            assert(q[0] == s[0]);
            assert(q.drop_first() =~= squash(s.drop_first()));
        }
    }
}

/// The tokens of a string, split on every single space.
pub fn split_on_spaces(s: &str) -> (tokens: Vec<String>)
    ensures
        tokens.deep_view() == spec_split(s@),
        tokens@.len() >= 1,
{
    let n: usize = s.unicode_len();
    let mut tokens: Vec<String> = Vec::new();
    proof {
        assert(s@.skip(0) =~= s@);
        assert(tokens.deep_view() =~= Seq::<Seq<char>>::empty());
        assert(Seq::<Seq<char>>::empty() + spec_split(s@) =~= spec_split(s@));
    }
    let mut start: usize = 0;
    let mut i: usize = 0;
    while i < n
        invariant
            start <= i <= n,
            n == s@.len(),
            spec_split(s@) == tokens.deep_view() + spec_split(s@.skip(start as int)),
            forall|k: int| start <= k < i ==> s@[k] != ' ',
        decreases n - i,
    {
        let c = s.get_char(i);
        if c == ' ' {
            let tok = s.substring_char(start, i).to_owned();
            let ghost prev = tokens.deep_view();
            tokens.push(tok);
            proof {
                let p = s@.subrange(start as int, i as int);
                assert(space_free(p));
                assert(s@.skip(start as int) =~= p + seq![' '] + s@.skip(i as int + 1));
                lemma_split_prefix(p, s@.skip(i as int + 1));
                assert(tokens.deep_view() =~= prev.push(tok@));
                assert(tok@ == p);
                assert(prev + (seq![p] + spec_split(s@.skip(i as int + 1))) =~= tokens.deep_view()
                    + spec_split(s@.skip(i as int + 1)));
            }
            start = i + 1;
        }
        i += 1;
    }
    let tok = s.substring_char(start, n).to_owned();
    let ghost prev = tokens.deep_view();
    tokens.push(tok);
    proof {
        let p = s@.subrange(start as int, n as int);
        assert(space_free(p));
        assert(s@.skip(start as int) =~= p);
        lemma_split_clean(p);
        assert(tokens.deep_view() =~= prev.push(tok@));
        assert(prev + seq![p] =~= tokens.deep_view());
    }
    tokens
}

/// The tokens `tokens[start..end]` joined with single spaces.
pub fn join_slice(tokens: &Vec<String>, start: usize, end: usize) -> (out: String)
    requires
        start < end <= tokens@.len(),
    ensures
        out@ == spec_join(tokens.deep_view().subrange(start as int, end as int)),
{
    let ghost all = tokens.deep_view();
    let mut out = tokens[start].clone();
    proof {
        assert(all.subrange(start as int, start as int + 1) =~= seq![all[start as int]]);
    }
    let mut k: usize = start + 1;
    while k < end
        invariant
            start < k <= end <= tokens@.len(),
            all == tokens.deep_view(),
            all.len() == tokens@.len(),
            out@ == spec_join(all.subrange(start as int, k as int)),
        decreases end - k,
    {
        out.append(" ");
        out.append(tokens[k].as_str());
        proof {
            reveal_strlit(" ");
            assert(" "@ =~= seq![' ']);
            let run = all.subrange(start as int, k as int);
            assert(all.subrange(start as int, k as int + 1) =~= run.push(all[k as int]));
            lemma_join_push(run, all[k as int]);
            assert(out@ =~= spec_join(run) + seq![' '] + all[k as int]);
        }
        k += 1;
    }
    out
}

/// The tokens `tokens[start..end]` run together with nothing in between.
pub fn concat_slice(tokens: &Vec<String>, start: usize, end: usize) -> (out: String)
    requires
        start <= end <= tokens@.len(),
    ensures
        out@ == spec_concat(tokens.deep_view().subrange(start as int, end as int)),
{
    let ghost all = tokens.deep_view();
    let mut out = String::new();
    proof {
        assert(all.subrange(start as int, start as int) =~= Seq::<Seq<char>>::empty());
    }
    let mut k: usize = start;
    while k < end
        invariant
            start <= k <= end <= tokens@.len(),
            all == tokens.deep_view(),
            all.len() == tokens@.len(),
            out@ == spec_concat(all.subrange(start as int, k as int)),
        decreases end - k,
    {
        out.append(tokens[k].as_str());
        proof {
            let run = all.subrange(start as int, k as int);
            assert(all.subrange(start as int, k as int + 1) =~= run.push(all[k as int]));
            lemma_concat_push(run, all[k as int]);
        }
        k += 1;
    }
    out
}

} // verus!
