//! Separator-based splitting of sequences, at the specification level.
//!
//! A modifier expression is written as clauses joined by `+`, each clause a
//! list of alternative key names joined by `-`. The parser in the hotkey
//! module is verified against [`split_on`], which states what splitting a
//! sequence at a separator yields: the tokens between the separators, in
//! order, where `n` separators always delimit exactly `n + 1` tokens
//! (an empty sequence holds one empty token).

use vstd::prelude::*;

verus! {

/// The tokens obtained by cutting `s` at every occurrence of `sep`.
///
/// The separators themselves are dropped; empty tokens are kept, so the
/// result always holds one more token than `s` holds separators.
pub open spec fn split_on<T>(s: Seq<T>, sep: T) -> Seq<Seq<T>>
    decreases s.len(),
{
    if s.len() == 0 {
        seq![Seq::<T>::empty()]
    } else {
        let rest = split_on(s.drop_first(), sep);
        if s[0] == sep {
            seq![Seq::<T>::empty()] + rest
        } else {
            seq![seq![s[0]] + rest[0]] + rest.drop_first()
        }
    }
}

/// Splitting never yields an empty token list.
pub proof fn lemma_split_on_nonempty<T>(s: Seq<T>, sep: T)
    ensures
        split_on(s, sep).len() >= 1,
    decreases s.len(),
{
    if s.len() > 0 {
        lemma_split_on_nonempty(s.drop_first(), sep);
    }
}

/// A sequence free of the separator is a single token.
pub proof fn lemma_split_on_no_sep<T>(s: Seq<T>, sep: T)
    requires
        !s.contains(sep),
    ensures
        split_on(s, sep) == seq![s],
    decreases s.len(),
{
    if s.len() == 0 {
        assert(split_on(s, sep) =~~= seq![s]);
    } else {
        assert(s[0] != sep) by {
            assert(s.contains(sep) <== s[0] == sep);
        }
        assert(!s.drop_first().contains(sep)) by {
            if s.drop_first().contains(sep) {
                let i = choose|i: int| 0 <= i < s.drop_first().len() && s.drop_first()[i] == sep;
                assert(s[i + 1] == sep);
            }
        }
        lemma_split_on_no_sep(s.drop_first(), sep);
        assert(split_on(s, sep) =~~= seq![s]);
    }
}

/// Splitting at the first separator: a separator-free prefix becomes the
/// first token, and the remainder splits on its own.
pub proof fn lemma_split_on_concat<T>(a: Seq<T>, b: Seq<T>, sep: T)
    requires
        !a.contains(sep),
    ensures
        split_on(a + seq![sep] + b, sep) == seq![a] + split_on(b, sep),
    decreases a.len(),
{
    let s = a + seq![sep] + b;
    if a.len() == 0 {
        assert(s[0] == sep);
        assert(s.drop_first() =~= b);
        assert(split_on(s, sep) =~~= seq![a] + split_on(b, sep));
    } else {
        assert(s[0] == a[0]);
        assert(a[0] != sep) by {
            assert(a.contains(sep) <== a[0] == sep);
        }
        assert(!a.drop_first().contains(sep)) by {
            if a.drop_first().contains(sep) {
                let i = choose|i: int|
                    0 <= i < a.drop_first().len() && a.drop_first()[i] == sep;
                assert(a[i + 1] == sep);
            }
        }
        lemma_split_on_concat(a.drop_first(), b, sep);
        lemma_split_on_nonempty(b, sep);
        assert(s.drop_first() =~= a.drop_first() + seq![sep] + b);
        assert(split_on(s, sep) =~~= seq![a] + split_on(b, sep));
    }
}

} // verus!
