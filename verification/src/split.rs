//! Cutting a text at the first occurrence of a separator, as
//! `str::split_once` does.
use vstd::prelude::*;

verus! {

/// Splits `s` at its first `sep` into what comes before it and what comes
/// after it; `None` when `s` holds no `sep`.
pub open spec fn split_first<A>(s: Seq<A>, sep: A) -> Option<(Seq<A>, Seq<A>)>
    decreases s.len(),
{
    if s.len() == 0 {
        None
    } else if s[0] == sep {
        Some((Seq::<A>::empty(), s.drop_first()))
    } else {
        match split_first(s.drop_first(), sep) {
            Some((head, rest)) => Some((seq![s[0]] + head, rest)),
            None => None,
        }
    }
}

/// `s` holds no `sep`.
pub open spec fn free_of<A>(s: Seq<A>, sep: A) -> bool {
    forall|i: int| 0 <= i < s.len() ==> s[i] != sep
}

/// Where the first `sep` stands, `split_first` cuts.
pub proof fn lemma_split_at_first<A>(s: Seq<A>, sep: A, k: int)
    requires
        0 <= k < s.len(),
        s[k] == sep,
        free_of(s.subrange(0, k), sep),
    ensures
        split_first(s, sep) == Some((s.subrange(0, k), s.subrange(k + 1, s.len() as int))),
    decreases k,
{
    if k == 0 {
        assert(s.subrange(0, 0) =~= Seq::<A>::empty());
        assert(s.subrange(1, s.len() as int) =~= s.drop_first());
    } else {
        let t = s.drop_first();
        assert(s[0] != sep) by {
            assert(s.subrange(0, k)[0] == s[0]);
        }
        assert(free_of(t.subrange(0, k - 1), sep)) by {
            assert forall|i: int| 0 <= i < k - 1 implies #[trigger] t.subrange(0, k - 1)[i]
                != sep by {
                assert(t.subrange(0, k - 1)[i] == s.subrange(0, k)[i + 1]);
            }
        }
        lemma_split_at_first(t, sep, k - 1);
        assert(seq![s[0]] + t.subrange(0, k - 1) =~= s.subrange(0, k));
        assert(t.subrange(k, t.len() as int) =~= s.subrange(k + 1, s.len() as int));
    }
}

/// A text without `sep` does not split.
pub proof fn lemma_no_separator<A>(s: Seq<A>, sep: A)
    requires
        free_of(s, sep),
    ensures
        split_first(s, sep) is None,
    decreases s.len(),
{
    if s.len() > 0 {
        assert(s[0] != sep);
        let t = s.drop_first();
        assert(free_of(t, sep)) by {
            assert forall|i: int| 0 <= i < t.len() implies t[i] != sep by {
                assert(t[i] == s[i + 1]);
            }
        }
        lemma_no_separator(t, sep);
    }
}

/// Extending a separator-free prefix by one more non-separator keeps it free.
pub proof fn lemma_free_extend<A>(s: Seq<A>, sep: A, k: int)
    requires
        0 <= k < s.len(),
        free_of(s.subrange(0, k), sep),
        s[k] != sep,
    ensures
        free_of(s.subrange(0, k + 1), sep),
{
    assert forall|i: int| 0 <= i < k + 1 implies #[trigger] s.subrange(0, k + 1)[i] != sep by {
        if i < k {
            assert(s.subrange(0, k + 1)[i] == s.subrange(0, k)[i]);
        }
    }
}

} // verus!
