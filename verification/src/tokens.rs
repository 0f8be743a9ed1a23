//! Splitting a line of input into whitespace-separated tokens.
//!
//! The mathematical model is `spec_tokens`, which walks the character
//! sequence left to right while carrying the token built so far; the
//! executable `tokenize` is proved to produce exactly that token sequence.

use vstd::prelude::*;

verus! {

/// The ASCII whitespace characters that separate tokens: space, tab,
/// line feed, form feed and carriage return.
pub open spec fn is_ascii_space(c: char) -> bool {
    c == ' ' || c == '\t' || c == '\n' || c == '\x0c' || c == '\r'
}

/// The tokens of `s`, given that the (possibly empty) token `cur` has
/// already been read immediately before `s`. A whitespace character closes
/// the current token; any other character extends it.
pub open spec fn tokens_from(s: Seq<char>, cur: Seq<char>) -> Seq<Seq<char>>
    decreases s.len(),
{
    if s.len() == 0 {
        if cur.len() == 0 {
            Seq::empty()
        } else {
            seq![cur]
        }
    } else if is_ascii_space(s[0]) {
        if cur.len() == 0 {
            tokens_from(s.skip(1), Seq::empty())
        } else {
            seq![cur] + tokens_from(s.skip(1), Seq::empty())
        }
    } else {
        tokens_from(s.skip(1), cur.push(s[0]))
    }
}

/// The maximal runs of non-whitespace characters of `s`, in order.
pub open spec fn spec_tokens(s: Seq<char>) -> Seq<Seq<char>> {
    tokens_from(s, Seq::empty())
}

proof fn lemma_tokens_from_space_split(a: Seq<char>, b: Seq<char>, cur: Seq<char>)
    ensures
        tokens_from(a + seq![' '] + b, cur) == tokens_from(a, cur) + tokens_from(b, Seq::empty()),
    decreases a.len(),
{
    let s = a + seq![' '] + b;
    if a.len() == 0 {
        assert(s[0] == ' ');
        assert(s.skip(1) =~= b);
        if cur.len() == 0 {
            assert(tokens_from(a, cur) + tokens_from(b, Seq::empty())
                =~= tokens_from(b, Seq::empty()));
        }
    } else {
        assert(s[0] == a[0]);
        assert(s.skip(1) =~= a.skip(1) + seq![' '] + b);
        if is_ascii_space(a[0]) {
            lemma_tokens_from_space_split(a.skip(1), b, Seq::empty());
            if cur.len() != 0 {
                assert(seq![cur] + (tokens_from(a.skip(1), Seq::empty()) + tokens_from(
                    b,
                    Seq::empty(),
                )) =~= (seq![cur] + tokens_from(a.skip(1), Seq::empty())) + tokens_from(
                    b,
                    Seq::empty(),
                ));
            }
        } else {
            lemma_tokens_from_space_split(a.skip(1), b, cur.push(a[0]));
        }
    }
}

/// A space boundary separates tokens: the tokens of `a + " " + b` are the
/// tokens of `a` followed by the tokens of `b`.
pub proof fn lemma_spec_tokens_split(a: Seq<char>, b: Seq<char>)
    ensures
        spec_tokens(a + seq![' '] + b) == spec_tokens(a) + spec_tokens(b),
{
    lemma_tokens_from_space_split(a, b, Seq::empty());
}

proof fn lemma_tokens_from_word(t: Seq<char>, cur: Seq<char>)
    requires
        forall|i: int| 0 <= i < t.len() ==> !is_ascii_space(#[trigger] t[i]),
        cur.len() + t.len() > 0,
    ensures
        tokens_from(t, cur) == seq![cur + t],
    decreases t.len(),
{
    if t.len() == 0 {
        assert(cur + t =~= cur);
    } else {
        lemma_tokens_from_word(t.skip(1), cur.push(t[0]));
        assert(cur.push(t[0]) + t.skip(1) =~= cur + t);
    }
}

/// A nonempty run of non-whitespace characters is one single token.
pub proof fn lemma_single_token(t: Seq<char>)
    requires
        t.len() > 0,
        forall|i: int| 0 <= i < t.len() ==> !is_ascii_space(#[trigger] t[i]),
    ensures
        spec_tokens(t) == seq![t],
{
    lemma_tokens_from_word(t, Seq::empty());
    assert(Seq::<char>::empty() + t =~= t);
}

fn is_space(c: char) -> (b: bool)
    ensures
        b == is_ascii_space(c),
{
    c == ' ' || c == '\t' || c == '\n' || c == '\x0c' || c == '\r'
}

/// Split `s` on ASCII whitespace into its tokens.
pub fn tokenize(s: &str) -> (r: Vec<String>)
    ensures
        r.deep_view() == spec_tokens(s@),
{
    let n: usize = s.unicode_len();
    let mut out: Vec<String> = Vec::new();
    let mut start: usize = 0;
    let mut i: usize = 0;
    proof {
        assert(out.deep_view() =~= Seq::<Seq<char>>::empty());
        assert(s@.skip(0) =~= s@);
        assert(s@.subrange(0, 0) =~= Seq::<char>::empty());
        assert(out.deep_view() + tokens_from(s@.skip(0), s@.subrange(0, 0)) =~= spec_tokens(s@));
    }
    while i < n
        invariant
            n == s@.len(),
            start <= i <= n,
            out.deep_view() + tokens_from(s@.skip(i as int), s@.subrange(start as int, i as int))
                == spec_tokens(s@),
        decreases n - i,
    {
        proof {
            assert(s@.skip(i as int)[0] == s@[i as int]);
            assert(s@.skip(i as int).skip(1) =~= s@.skip(i as int + 1));
        }
        let c = s.get_char(i);
        if is_space(c) {
            if start < i {
                let tok = s.substring_char(start, i).to_owned();
                let ghost prev = out.deep_view();
                out.push(tok);
                proof {
                    assert(out.deep_view()
                        =~= prev + seq![s@.subrange(start as int, i as int)]);
                }
            }
            i = i + 1;
            start = i;
            proof {
                assert(s@.subrange(start as int, start as int) =~= Seq::<char>::empty());
            }
        } else {
            i = i + 1;
            proof {
                assert(s@.subrange(start as int, i as int)
                    =~= s@.subrange(start as int, i as int - 1).push(s@[i as int - 1]));
            }
        }
    }
    proof {
        assert(s@.skip(n as int) =~= Seq::<char>::empty());
    }
    if start < n {
        let tok = s.substring_char(start, n).to_owned();
        let ghost prev = out.deep_view();
        out.push(tok);
        proof {
            assert(out.deep_view()
                =~= prev + seq![s@.subrange(start as int, n as int)]);
        }
    }
    out
}

} // verus!
