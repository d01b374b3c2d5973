//! The single left-to-right pass that classifies tokens and builds the value
//! map, with the laws that pin down which token gives each flag its value.

use vstd::prelude::*;
use crate::token::{eq_idx, eq_key, eq_val, find_eq, has_eq_tok, is_flag_tok, lemma_split_concat,
    split_at_eq, tok_is_flag};

verus! {

/// The views of the argument strings.
pub open spec fn arg_views(args: Seq<String>) -> Seq<Seq<char>> {
    args.map_values(|s: String| s@)
}

/// A key is present as a whole token somewhere in the raw argument list.
pub open spec fn token_present(args: Seq<Seq<char>>, k: Seq<char>) -> bool {
    exists|i: int| 0 <= i < args.len() && args[i] == k
}

/// One pass over the tokens: the value map built so far, and the bare flag
/// still waiting for a following value token.
pub open spec fn scan(args: Seq<Seq<char>>) -> (Map<Seq<char>, Seq<char>>, Option<Seq<char>>)
    decreases args.len(),
{
    if args.len() == 0 {
        (Map::empty(), None)
    } else {
        let prev = scan(args.drop_last());
        let t = args.last();
        if is_flag_tok(t) && has_eq_tok(t) {
            (prev.0.insert(eq_key(t), eq_val(t)), None)
        } else if is_flag_tok(t) {
            (prev.0, Some(t))
        } else {
            match prev.1 {
                Some(p) => (prev.0.insert(p, t), None),
                None => (prev.0, None),
            }
        }
    }
}

/// The flag-to-value mapping the scan of `args` produces.
pub open spec fn value_map(args: Seq<Seq<char>>) -> Map<Seq<char>, Seq<char>> {
    scan(args).0
}

/// Token `i` records a value for key `k`: either it is `k=value`, or it is a
/// plain token standing right after the bare flag `k`.
pub open spec fn assigns_at(args: Seq<Seq<char>>, i: int, k: Seq<char>) -> bool {
    &&& 0 <= i < args.len()
    &&& {
        ||| (is_flag_tok(args[i]) && has_eq_tok(args[i]) && eq_key(args[i]) == k)
        ||| (!is_flag_tok(args[i]) && i >= 1 && is_flag_tok(args[i - 1]) && !has_eq_tok(args[i - 1])
            && args[i - 1] == k)
    }
}

/// The value token `i` records: the part after the `=`, or the token itself.
pub open spec fn assigned_value(args: Seq<Seq<char>>, i: int) -> Seq<char> {
    if is_flag_tok(args[i]) {
        eq_val(args[i])
    } else {
        args[i]
    }
}

/// The pending flag after the scan depends on the last token alone.
pub open spec fn pending_of(args: Seq<Seq<char>>) -> Option<Seq<char>> {
    if args.len() > 0 && is_flag_tok(args.last()) && !has_eq_tok(args.last()) {
        Some(args.last())
    } else {
        None
    }
}

pub proof fn lemma_scan_pending(args: Seq<Seq<char>>)
    ensures
        scan(args).1 == pending_of(args),
{
}

/// Whether token `i` assigns `k` is unchanged when tokens after `i` are cut off.
proof fn lemma_assigns_at_prefix(args: Seq<Seq<char>>, i: int, k: Seq<char>)
    requires
        0 <= i < args.len() - 1,
    ensures
        assigns_at(args.drop_last(), i, k) <==> assigns_at(args, i, k),
{
    let sub = args.drop_last();
    assert(sub[i] == args[i]);
    if i >= 1 {
        assert(sub[i - 1] == args[i - 1]);
    }
}

/// A key is in the value map exactly when some token assigns it.
pub proof fn lemma_value_map_key(args: Seq<Seq<char>>, k: Seq<char>)
    ensures
        value_map(args).contains_key(k) <==> exists|i: int| assigns_at(args, i, k),
    decreases args.len(),
{
    if args.len() == 0 {
    } else {
        let sub = args.drop_last();
        let t = args.last();
        let last = args.len() - 1;
        lemma_value_map_key(sub, k);
        lemma_scan_pending(sub);
        assert forall|i: int| assigns_at(sub, i, k) implies assigns_at(args, i, k) by {
            lemma_assigns_at_prefix(args, i, k);
        }
        if value_map(args).contains_key(k) {
            if value_map(sub).contains_key(k) {
                let i = choose|i: int| assigns_at(sub, i, k);
                assert(assigns_at(args, i, k));
            } else {
                assert(assigns_at(args, last, k));
            }
        }
        if exists|i: int| assigns_at(args, i, k) {
            let i = choose|i: int| assigns_at(args, i, k);
            if i < last {
                lemma_assigns_at_prefix(args, i, k);
                assert(value_map(sub).contains_key(k));
            } else {
                assert(value_map(args).contains_key(k));
            }
        }
    }
}

/// When token `i` assigns `k` and no later token does, the value map holds
/// exactly the value token `i` recorded.
pub proof fn lemma_value_map_at(args: Seq<Seq<char>>, k: Seq<char>, i: int)
    requires
        assigns_at(args, i, k),
        forall|j: int| i < j < args.len() ==> !#[trigger] assigns_at(args, j, k),
    ensures
        value_map(args).contains_key(k),
        value_map(args)[k] == assigned_value(args, i),
    decreases args.len(),
{
    let sub = args.drop_last();
    let t = args.last();
    let last = args.len() - 1;
    lemma_scan_pending(sub);
    if i == last {
        if is_flag_tok(t) {
            assert(value_map(args) == value_map(sub).insert(eq_key(t), eq_val(t)));
        } else {
            assert(pending_of(sub) == Some(k));
            assert(value_map(args) == value_map(sub).insert(k, t));
        }
    } else {
        lemma_assigns_at_prefix(args, i, k);
        assert forall|j: int| i < j < sub.len() implies !assigns_at(sub, j, k) by {
            lemma_assigns_at_prefix(args, j, k);
        }
        lemma_value_map_at(sub, k, i);
        assert(!assigns_at(args, last, k));
        if is_flag_tok(t) && has_eq_tok(t) {
            assert(eq_key(t) != k);
        } else if is_flag_tok(t) {
        } else {
            match pending_of(sub) {
                Some(p) => {
                    assert(p != k);
                },
                None => {},
            }
        }
    }
}

/// A token `key=value` on the command line records exactly `value` for `key`,
/// provided no later token assigns `key` again; and a plain token standing
/// right after it is not consumed as a value for any flag.
pub proof fn lemma_eq_token_records(args: Seq<Seq<char>>, i: int, k: Seq<char>, v: Seq<char>)
    requires
        0 <= i < args.len(),
        is_flag_tok(k),
        !has_eq_tok(k),
        args[i] == k + seq!['='] + v,
        forall|j: int| i < j < args.len() ==> !#[trigger] assigns_at(args, j, k),
    ensures
        value_map(args).contains_key(k),
        value_map(args)[k] == v,
        i + 1 < args.len() && !is_flag_tok(args[i + 1]) ==> forall|k2: Seq<char>|
            !#[trigger] assigns_at(args, i + 1, k2),
{
    lemma_split_concat(k, v);
    let t = args[i];
    assert(t[0] == k[0]);
    assert(is_flag_tok(t));
    assert(assigns_at(args, i, k));
    lemma_value_map_at(args, k, i);
}

/// A bare flag takes the next plain token as its value, provided no later
/// token assigns the flag again.
pub proof fn lemma_bare_flag_takes_next(args: Seq<Seq<char>>, i: int)
    requires
        0 <= i,
        i + 1 < args.len(),
        is_flag_tok(args[i]),
        !has_eq_tok(args[i]),
        !is_flag_tok(args[i + 1]),
        forall|j: int| i + 1 < j < args.len() ==> !#[trigger] assigns_at(args, j, args[i]),
    ensures
        value_map(args).contains_key(args[i]),
        value_map(args)[args[i]] == args[i + 1],
{
    assert(assigns_at(args, i + 1, args[i]));
    lemma_value_map_at(args, args[i], i + 1);
}

/// Of two consecutive bare flags followed by a plain token, the second flag
/// takes the value, and the group records nothing for the first flag: if no
/// token anywhere assigns the first flag, it stays out of the value map (it
/// remains detectable only as a present token).
pub proof fn lemma_consecutive_bare_flags(args: Seq<Seq<char>>, i: int)
    requires
        0 <= i,
        i + 2 < args.len(),
        is_flag_tok(args[i]),
        !has_eq_tok(args[i]),
        is_flag_tok(args[i + 1]),
        !has_eq_tok(args[i + 1]),
        !is_flag_tok(args[i + 2]),
        forall|j: int| i + 2 < j < args.len() ==> !#[trigger] assigns_at(args, j, args[i + 1]),
    ensures
        value_map(args).contains_key(args[i + 1]),
        value_map(args)[args[i + 1]] == args[i + 2],
        !assigns_at(args, i, args[i]),
        !assigns_at(args, i + 1, args[i]),
        args[i + 1] != args[i] ==> !assigns_at(args, i + 2, args[i]),
        (forall|j: int| !#[trigger] assigns_at(args, j, args[i])) ==> !value_map(args).contains_key(args[i]),
{
    assert(assigns_at(args, i + 2, args[i + 1]));
    lemma_value_map_at(args, args[i + 1], i + 2);
    lemma_value_map_key(args, args[i]);
}

/// Every key the scan records is itself a flag token: it begins with a dash.
/// Plain tokens are consumed as values or ignored, never made keys.
pub proof fn lemma_value_map_keys_are_flags(args: Seq<Seq<char>>, k: Seq<char>)
    requires
        value_map(args).contains_key(k),
    ensures
        is_flag_tok(k),
{
    lemma_value_map_key(args, k);
    let i = choose|i: int| assigns_at(args, i, k);
    if is_flag_tok(args[i]) && has_eq_tok(args[i]) && eq_key(args[i]) == k {
        let t = args[i];
        crate::token::lemma_eq_idx_props(t);
        assert(t[0] != '=');
        assert(eq_idx(t) >= 1);
        assert(eq_key(t)[0] == t[0]);
    }
}

/// The value map as an association list represents it: a later entry for the
/// same key overrides an earlier one.
pub open spec fn vm_view(entries: Seq<(String, String)>) -> Map<Seq<char>, Seq<char>>
    decreases entries.len(),
{
    if entries.len() == 0 {
        Map::empty()
    } else {
        vm_view(entries.drop_last()).insert(entries.last().0@, entries.last().1@)
    }
}

/// An entry with no later entry for its key decides what the map holds there.
pub proof fn lemma_vm_view_at(entries: Seq<(String, String)>, i: int)
    requires
        0 <= i < entries.len(),
        forall|j: int| i < j < entries.len() ==> entries[j].0@ != entries[i].0@,
    ensures
        vm_view(entries).contains_key(entries[i].0@),
        vm_view(entries)[entries[i].0@] == entries[i].1@,
    decreases entries.len(),
{
    if i == entries.len() - 1 {
    } else {
        let sub = entries.drop_last();
        assert forall|j: int| i < j < sub.len() implies sub[j].0@ != sub[i].0@ by {
            assert(entries[j].0@ != entries[i].0@);
        }
        lemma_vm_view_at(sub, i);
        assert(entries.last().0@ != entries[i].0@);
    }
}

/// A key no entry carries is absent from the map.
pub proof fn lemma_vm_view_absent(entries: Seq<(String, String)>, k: Seq<char>)
    requires
        forall|j: int| 0 <= j < entries.len() ==> entries[j].0@ != k,
    ensures
        !vm_view(entries).contains_key(k),
    decreases entries.len(),
{
    if entries.len() > 0 {
        let sub = entries.drop_last();
        assert forall|j: int| 0 <= j < sub.len() implies sub[j].0@ != k by {
            assert(entries[j].0@ != k);
        }
        lemma_vm_view_absent(sub, k);
    }
}

/// The executable pass: classifies each token in order and collects the
/// recorded key/value pairs, exactly as `scan` says.
pub(crate) fn scan_args(args: &Vec<String>) -> (v: Vec<(String, String)>)
    ensures
        vm_view(v@) == value_map(arg_views(args@)),
{
    let ghost av = arg_views(args@);
    let mut v: Vec<(String, String)> = Vec::new();
    let mut pending: Option<String> = None;
    let n = args.len();
    let mut idx: usize = 0;
    while idx < n
        invariant
            idx <= n,
            n == args@.len(),
            av == arg_views(args@),
            vm_view(v@) == scan(av.take(idx as int)).0,
            (match pending {
                Some(p) => Some(p@),
                None => None,
            }) == scan(av.take(idx as int)).1,
        decreases n - idx,
    {
        let a = &args[idx];
        proof {
            assert(av.take(idx + 1 as int).drop_last() =~= av.take(idx as int));
            assert(av.take(idx + 1 as int).last() == a@);
        }
        let ghost old_v = v@;
        let prev_pending = pending;
        pending = None;
        if tok_is_flag(a.as_str()) {
            match find_eq(a.as_str()) {
                Some(p) => {
                    let (key, val) = split_at_eq(a.as_str(), p);
                    proof {
                        assert(old_v.push((key, val)).drop_last() =~= old_v);
                    }
                    v.push((key, val));
                },
                None => {
                    pending = Some(a.clone());
                },
            }
        } else {
            match prev_pending {
                Some(fl) => {
                    let value = a.clone();
                    proof {
                        assert(old_v.push((fl, value)).drop_last() =~= old_v);
                    }
                    v.push((fl, value));
                },
                None => {},
            }
        }
        idx = idx + 1;
    }
    proof {
        assert(av.take(n as int) =~= av);
    }
    v
}

} // verus!
