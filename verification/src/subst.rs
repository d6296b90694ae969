//! The substitution engine's core: literal, non-regex, global replacement of
//! a token inside a character sequence, and the stripping of one brace pair
//! from a placeholder binding.

use vstd::prelude::*;

verus! {

/// The token `pat` occurs in `s` at position `i`.
pub open spec fn matches_at(s: Seq<char>, pat: Seq<char>, i: int) -> bool {
    &&& 0 <= i
    &&& i + pat.len() <= s.len()
    &&& forall|k: int| 0 <= k < pat.len() ==> s[i + k] == pat[k]
}

/// The token `pat` occurs somewhere in `s`.
pub open spec fn occurs_in(s: Seq<char>, pat: Seq<char>) -> bool {
    exists|i: int| matches_at(s, pat, i)
}

/// Global left-to-right replacement of every occurrence of `pat` in `s` by
/// `to`.  Matches are found greedily from the left and do not overlap; an
/// empty token matches at every position, including both ends.
pub open spec fn replace_all(s: Seq<char>, pat: Seq<char>, to: Seq<char>) -> Seq<char>
    decreases s.len(),
{
    if pat.len() == 0 {
        if s.len() == 0 {
            to
        } else {
            to + seq![s[0]] + replace_all(s.drop_first(), pat, to)
        }
    } else if s.len() < pat.len() {
        s
    } else if matches_at(s, pat, 0) {
        to + replace_all(s.skip(pat.len() as int), pat, to)
    } else {
        seq![s[0]] + replace_all(s.drop_first(), pat, to)
    }
}

/// Whether `pat` occurs at position `i` of `s`, by direct comparison.
fn match_at(s: &Vec<char>, pat: &Vec<char>, i: usize) -> (r: bool)
    requires
        i + pat@.len() <= s@.len(),
    ensures
        r == matches_at(s@, pat@, i as int),
{
    let n = s.len();
    let m = pat.len();
    let mut k: usize = 0;
    while k < m
        invariant
            0 <= k <= m,
            m == pat@.len(),
            n == s@.len(),
            i + m <= n,
            forall|j: int| 0 <= j < k ==> s@[i + j] == pat@[j],
        decreases m - k,
    {
        if s[i + k] != pat[k] {
            return false;
        }
        k += 1;
    }
    true
}

fn push_all(out: &mut Vec<char>, piece: &Vec<char>)
    ensures
        final(out)@ == old(out)@ + piece@,
{
    let mut k: usize = 0;
    while k < piece.len()
        invariant
            0 <= k <= piece@.len(),
            out@ =~= old(out)@ + piece@.take(k as int),
        decreases piece@.len() - k,
    {
        out.push(piece[k]);
        k += 1;
    }
    proof {
        assert(piece@.take(piece@.len() as int) =~= piece@);
    }
}

/// Replaces every occurrence of `pat` in `s` by `to`, greedily from the left.
pub fn replace_chars(s: &Vec<char>, pat: &Vec<char>, to: &Vec<char>) -> (r: Vec<char>)
    ensures
        r@ == replace_all(s@, pat@, to@),
{
    let n = s.len();
    let m = pat.len();
    let mut out: Vec<char> = Vec::new();
    let mut i: usize = 0;
    if m == 0 {
        push_all(&mut out, to);
        proof {
            assert(s@.skip(0) =~= s@);
        }
        while i < n
            invariant
                0 <= i <= n,
                n == s@.len(),
                pat@.len() == 0,
                replace_all(s@, pat@, to@) == out@ + replace_all(s@.skip(i as int), pat@, to@).skip(
                    to@.len() as int,
                ),
            decreases n - i,
        {
            proof {
                let rest = s@.skip(i as int);
                assert(rest.len() > 0);
                assert(rest.drop_first() =~= s@.skip(i + 1));
                let tail = replace_all(s@.skip(i + 1), pat@, to@);
                assert(replace_all(rest, pat@, to@) == to@ + seq![rest[0]] + tail);
                assert((to@ + seq![rest[0]] + tail).skip(to@.len() as int) =~= seq![rest[0]]
                    + tail);
                // whatever the remaining text, its replacement starts with `to`
                if s@.skip(i + 1).len() == 0 {
                    assert(tail == to@);
                    assert(tail.skip(to@.len() as int) =~= Seq::<char>::empty());
                    assert(to@ + tail.skip(to@.len() as int) =~= tail);
                } else {
                    let rest1 = s@.skip(i + 1);
                    assert(tail == to@ + seq![rest1[0]] + replace_all(
                        rest1.drop_first(),
                        pat@,
                        to@,
                    ));
                    assert(tail.skip(to@.len() as int) =~= seq![rest1[0]] + replace_all(
                        rest1.drop_first(),
                        pat@,
                        to@,
                    ));
                    assert(to@ + tail.skip(to@.len() as int) =~= tail);
                }
                assert(rest[0] == s@[i as int]);
                assert(out@ + (seq![s@[i as int]] + tail) =~= (out@ + seq![s@[i as int]] + to@)
                    + tail.skip(to@.len() as int));
            }
            out.push(s[i]);
            push_all(&mut out, to);
            i += 1;
        }
        proof {
            assert(s@.skip(i as int) =~= Seq::<char>::empty());
            assert(replace_all(Seq::<char>::empty(), pat@, to@) == to@);
            assert(to@.skip(to@.len() as int) =~= Seq::<char>::empty());
            assert(out@ + Seq::<char>::empty() =~= out@);
            assert(replace_all(s@, pat@, to@) =~= out@);
        }
        return out;
    }
    proof {
        assert(s@.skip(0) =~= s@);
    }
    while i < n
        invariant
            0 <= i <= n,
            n == s@.len(),
            m == pat@.len(),
            pat@.len() > 0,
            replace_all(s@, pat@, to@) == out@ + replace_all(s@.skip(i as int), pat@, to@),
        decreases n - i,
    {
        let ghost rest = s@.skip(i as int);
        if m <= n - i && match_at(s, pat, i) {
            proof {
                assert(forall|k: int|
                    0 <= k < pat@.len() ==> rest[k] == s@[i + k] && rest[k] == pat@[k]);
                assert(matches_at(rest, pat@, 0));
                assert(rest.skip(pat@.len() as int) =~= s@.skip(i + pat@.len()));
                assert(replace_all(rest, pat@, to@) == to@ + replace_all(
                    s@.skip(i + pat@.len()),
                    pat@,
                    to@,
                ));
            }
            push_all(&mut out, to);
            i += pat.len();
        } else {
            proof {
                assert(rest.len() > 0);
                assert(rest.drop_first() =~= s@.skip(i + 1));
                if rest.len() >= pat@.len() {
                    // no match at this position
                    if matches_at(rest, pat@, 0) {
                        assert(forall|k: int| 0 <= k < pat@.len() ==> s@[i + k] == rest[k]);
                        assert(matches_at(s@, pat@, i as int));
                        assert(false);
                    }
                    assert(replace_all(rest, pat@, to@) == seq![rest[0]] + replace_all(
                        s@.skip(i + 1),
                        pat@,
                        to@,
                    ));
                } else {
                    // the tail is shorter than the token: it is kept as is,
                    // and so is its first character
                    assert(replace_all(rest, pat@, to@) == rest);
                    assert(s@.skip(i + 1).len() < pat@.len());
                    assert(replace_all(s@.skip(i + 1), pat@, to@) == s@.skip(i + 1));
                    assert(rest =~= seq![rest[0]] + s@.skip(i + 1));
                }
            }
            out.push(s[i]);
            i += 1;
        }
    }
    proof {
        assert(s@.skip(i as int) =~= Seq::<char>::empty());
        assert(replace_all(Seq::<char>::empty(), pat@, to@) == Seq::<char>::empty());
        assert(out@ + Seq::<char>::empty() =~= out@);
        assert(replace_all(s@, pat@, to@) =~= out@);
    }
    out
}

/// A non-empty token that occurs nowhere in a text leaves it unchanged:
/// substitution with no matching occurrence is the identity.
pub proof fn lemma_replace_no_occurrence(s: Seq<char>, pat: Seq<char>, to: Seq<char>)
    requires
        pat.len() > 0,
        !occurs_in(s, pat),
    ensures
        replace_all(s, pat, to) == s,
    decreases s.len(),
{
    if s.len() < pat.len() {
    } else {
        assert(!matches_at(s, pat, 0));
        assert(forall|j: int| matches_at(s.drop_first(), pat, j) ==> matches_at(s, pat, j + 1));
        assert(!occurs_in(s.drop_first(), pat));
        lemma_replace_no_occurrence(s.drop_first(), pat, to);
        assert(seq![s[0]] + s.drop_first() =~= s);
    }
}

/// Replacing a token that never occurs in the replacement value, then
/// replacing again, changes nothing the second time, provided the first
/// pass left no occurrence behind; in particular a pass over a text free
/// of the token is idempotent.
pub proof fn lemma_replace_idempotent(s: Seq<char>, pat: Seq<char>, to: Seq<char>)
    requires
        pat.len() > 0,
        !occurs_in(replace_all(s, pat, to), pat),
    ensures
        replace_all(replace_all(s, pat, to), pat, to) == replace_all(s, pat, to),
{
    lemma_replace_no_occurrence(replace_all(s, pat, to), pat, to);
}

/// One leading `{` and one trailing `}` removed from a placeholder binding:
/// the key looked up in the answer mapping.
pub open spec fn strip_braces(s: Seq<char>) -> Seq<char> {
    let a = if s.len() > 0 && s[0] == '{' {
        s.drop_first()
    } else {
        s
    };
    if a.len() > 0 && a.last() == '}' {
        a.drop_last()
    } else {
        a
    }
}

/// Strips one leading `{` and one trailing `}` from a binding, if present.
pub fn strip_braces_chars(s: &Vec<char>) -> (r: Vec<char>)
    ensures
        r@ == strip_braces(s@),
{
    let n = s.len();
    let lo: usize = if n > 0 && s[0] == '{' {
        1
    } else {
        0
    };
    let hi: usize = if n > lo && s[n - 1] == '}' {
        n - 1
    } else {
        n
    };
    let mut r: Vec<char> = Vec::new();
    let mut i: usize = lo;
    while i < hi
        invariant
            lo <= i <= hi <= n,
            n == s@.len(),
            r@ =~= s@.subrange(lo as int, i as int),
        decreases hi - i,
    {
        r.push(s[i]);
        i += 1;
    }
    proof {
        let a = if s@.len() > 0 && s@[0] == '{' {
            s@.drop_first()
        } else {
            s@
        };
        assert(a =~= s@.subrange(lo as int, n as int));
        assert(strip_braces(s@) =~= s@.subrange(lo as int, hi as int));
        assert(r@ =~= s@.subrange(lo as int, hi as int));
    }
    r
}

} // verus!
