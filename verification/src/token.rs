//! Classifying and splitting single command-line tokens.

use vstd::prelude::*;
use vstd::string::StrSliceExecFns;
use vstd::string::StringExecFns;

verus! {

/// A token is a flag when it begins with a dash.
pub open spec fn is_flag_tok(t: Seq<char>) -> bool {
    t.len() > 0 && t[0] == '-'
}

/// A token carries an inline value when it contains `=` anywhere.
pub open spec fn has_eq_tok(t: Seq<char>) -> bool {
    exists|i: int| 0 <= i < t.len() && t[i] == '='
}

/// Position of the first `=` in the token (its length when there is none).
pub open spec fn eq_idx(t: Seq<char>) -> int
    decreases t.len(),
{
    if t.len() == 0 {
        0
    } else if t[0] == '=' {
        0
    } else {
        1 + eq_idx(t.drop_first())
    }
}

/// Everything before the first `=`.
pub open spec fn eq_key(t: Seq<char>) -> Seq<char> {
    t.take(eq_idx(t))
}

/// Everything after the first `=` (further `=` characters included).
pub open spec fn eq_val(t: Seq<char>) -> Seq<char> {
    t.skip(eq_idx(t) + 1)
}

/// When a token holds an `=`, the first one is a proper index, and nothing
/// before it is an `=`.
pub proof fn lemma_eq_idx_props(t: Seq<char>)
    requires
        has_eq_tok(t),
    ensures
        0 <= eq_idx(t) < t.len(),
        t[eq_idx(t)] == '=',
        forall|j: int| 0 <= j < eq_idx(t) ==> t[j] != '=',
    decreases t.len(),
{
    if t[0] == '=' {
    } else {
        let i = choose|i: int| 0 <= i < t.len() && t[i] == '=';
        assert(t.drop_first()[i - 1] == '=');
        lemma_eq_idx_props(t.drop_first());
        assert forall|j: int| 0 <= j < eq_idx(t) implies t[j] != '=' by {
            if j > 0 {
                assert(t.drop_first()[j - 1] != '=');
            }
        }
    }
}

/// The first `=` is the one at index `i` when nothing before `i` is an `=`.
pub proof fn lemma_eq_idx_of_first(t: Seq<char>, i: int)
    requires
        0 <= i < t.len(),
        t[i] == '=',
        forall|j: int| 0 <= j < i ==> t[j] != '=',
    ensures
        has_eq_tok(t),
        eq_idx(t) == i,
    decreases t.len(),
{
    if i == 0 {
    } else {
        assert(t[0] != '=');
        assert(t.drop_first()[i - 1] == '=');
        assert forall|j: int| 0 <= j < i - 1 implies t.drop_first()[j] != '=' by {
            assert(t[j + 1] != '=');
        }
        lemma_eq_idx_of_first(t.drop_first(), i - 1);
    }
}

/// Splitting `key ++ "=" ++ value` at its first `=` recovers the two parts,
/// provided the key itself holds no `=`.
pub proof fn lemma_split_concat(k: Seq<char>, v: Seq<char>)
    requires
        !has_eq_tok(k),
    ensures
        has_eq_tok(k + seq!['='] + v),
        eq_idx(k + seq!['='] + v) == k.len(),
        eq_key(k + seq!['='] + v) == k,
        eq_val(k + seq!['='] + v) == v,
{
    let t = k + seq!['='] + v;
    assert(t[k.len() as int] == '=');
    assert forall|j: int| 0 <= j < k.len() implies t[j] != '=' by {
        assert(t[j] == k[j]);
    }
    lemma_eq_idx_of_first(t, k.len() as int);
    assert(eq_key(t) =~= k);
    assert(eq_val(t) =~= v);
}

/// Whether the token begins with a dash.
pub(crate) fn tok_is_flag(s: &str) -> (r: bool)
    ensures
        r == is_flag_tok(s@),
{
    let n = s.unicode_len();
    if n == 0 {
        false
    } else {
        s.get_char(0) == '-'
    }
}

/// Position of the first `=` in the token, if any.
pub(crate) fn find_eq(s: &str) -> (r: Option<usize>)
    ensures
        match r {
            Some(i) => has_eq_tok(s@) && i == eq_idx(s@),
            None => !has_eq_tok(s@),
        },
{
    let n = s.unicode_len();
    let mut i: usize = 0;
    while i < n
        invariant
            i <= n,
            n == s@.len(),
            forall|j: int| 0 <= j < i ==> s@[j] != '=',
        decreases n - i,
    {
        if s.get_char(i) == '=' {
            proof {
                lemma_eq_idx_of_first(s@, i as int);
            }
            return Some(i);
        }
        i = i + 1;
    }
    None
}

/// Splits the token at its first `=` into key and value.
pub(crate) fn split_at_eq(s: &str, i: usize) -> (r: (String, String))
    requires
        has_eq_tok(s@),
        i == eq_idx(s@),
    ensures
        r.0@ == eq_key(s@),
        r.1@ == eq_val(s@),
{
    proof {
        lemma_eq_idx_props(s@);
    }
    let n = s.unicode_len();
    let k = s.substring_char(0, i);
    let v = s.substring_char(i + 1, n);
    (String::from_str(k), String::from_str(v))
}

} // verus!
