//! The argument registry: one scan of an injected argument list at
//! construction, typed accessors that read the value map and declare the flag
//! for help rendering, and the help renderer itself.

use vstd::prelude::*;
use vstd::string::StringExecFns;
use crate::help::{dm_view, prog_of, render_help, Type};
use crate::numeric::{parse_i32_str, parse_u32_str, parsed_i32, parsed_u32};
use crate::scan::{arg_views, scan_args, token_present, value_map, vm_view, lemma_vm_view_at,
    lemma_vm_view_absent};

verus! {

/// Flag names never repeat in the description list.
pub open spec fn desc_keys_unique(ds: Seq<(Seq<char>, Seq<char>, Type)>) -> bool {
    forall|i: int, j: int| 0 <= i < j < ds.len() ==> ds[i].0 != ds[j].0
}

pub open spec fn desc_has_key(ds: Seq<(Seq<char>, Seq<char>, Type)>, k: Seq<char>) -> bool {
    exists|i: int| 0 <= i < ds.len() && ds[i].0 == k
}

pub open spec fn desc_index_of(ds: Seq<(Seq<char>, Seq<char>, Type)>, k: Seq<char>) -> int {
    choose|i: int| 0 <= i < ds.len() && ds[i].0 == k
}

/// Declaring a flag: a key already declared keeps its place and gets the new
/// description and tag; a new key goes to the end.
pub open spec fn desc_insert(
    ds: Seq<(Seq<char>, Seq<char>, Type)>,
    k: Seq<char>,
    d: Seq<char>,
    t: Type,
) -> Seq<(Seq<char>, Seq<char>, Type)> {
    if desc_has_key(ds, k) {
        ds.update(desc_index_of(ds, k), (k, d, t))
    } else {
        ds.push((k, d, t))
    }
}

/// Re-declaring a key overwrites what was stored for it: only the latest
/// declaration decides the description and tag that are kept.
pub proof fn lemma_redeclare_overwrites(
    ds: Seq<(Seq<char>, Seq<char>, Type)>,
    k: Seq<char>,
    d1: Seq<char>,
    t1: Type,
    d2: Seq<char>,
    t2: Type,
)
    requires
        desc_keys_unique(ds),
    ensures
        desc_insert(desc_insert(ds, k, d1, t1), k, d2, t2) == desc_insert(ds, k, d2, t2),
{
    if desc_has_key(ds, k) {
        let i = desc_index_of(ds, k);
        let ds1 = ds.update(i, (k, d1, t1));
        assert(ds1[i].0 == k);
        assert(desc_has_key(ds1, k));
        let i1 = desc_index_of(ds1, k);
        assert(ds1[i1].0 == k);
        if i1 != i {
            if i1 < i {
                assert(ds[i1].0 == k);
            } else {
                assert(ds[i1].0 == k);
            }
            assert(false);
        }
        assert(ds1.update(i, (k, d2, t2)) =~= ds.update(i, (k, d2, t2)));
    } else {
        let ds1 = ds.push((k, d1, t1));
        let l = ds.len() as int;
        assert(ds1[l].0 == k);
        assert(desc_has_key(ds1, k));
        let i1 = desc_index_of(ds1, k);
        assert(ds1[i1].0 == k);
        if i1 != l {
            assert(ds[i1].0 == k);
            assert(false);
        }
        assert(ds1.update(l, (k, d2, t2)) =~= ds.push((k, d2, t2)));
    }
}

/// Repeated accessor calls agree on the returned value: each accessor's result
/// is a function of the value map and the raw argument list alone, and every
/// accessor leaves both unchanged (see its `ensures`), so a second call with
/// the same key answers the same. Only the description list moves, by
/// overwriting (see `lemma_redeclare_overwrites`).
pub proof fn lemma_accessor_results_stable(a: Flag, b: Flag, k: Seq<char>)
    requires
        a.values_view() == b.values_view(),
        a.args_view() == b.args_view(),
    ensures
        parsed_i32(a.values_view(), k) == parsed_i32(b.values_view(), k),
        parsed_u32(a.values_view(), k) == parsed_u32(b.values_view(), k),
        token_present(a.args_view(), k) == token_present(b.args_view(), k),
        a.values_view().contains_key(k) == b.values_view().contains_key(k),
        a.values_view().contains_key(k) ==> a.values_view()[k] == b.values_view()[k],
{
}

/// The argument registry. Built once from the raw argument list; accessors
/// read the recorded values and declare flags for help rendering.
pub struct Flag {
    descriptions: Vec<(String, String, Type)>,
    values: Vec<(String, String)>,
    args: Vec<String>,
    help_message_prefix: Option<String>,
}

impl Flag {
    /// Keys in the description list never repeat.
    #[verifier::type_invariant]
    spec fn wf(self) -> bool {
        desc_keys_unique(dm_view(self.descriptions@))
    }

    /// The recorded flag values, as a map from flag token to value.
    pub closed spec fn values_view(self) -> Map<Seq<char>, Seq<char>> {
        vm_view(self.values@)
    }

    /// The declared flags, in order: key, description, tag.
    pub closed spec fn descs_view(self) -> Seq<(Seq<char>, Seq<char>, Type)> {
        dm_view(self.descriptions@)
    }

    /// The raw argument list as given at construction.
    pub closed spec fn args_view(self) -> Seq<Seq<char>> {
        arg_views(self.args@)
    }

    /// The help message prefix, when one was set.
    pub closed spec fn prefix_view(self) -> Option<Seq<char>> {
        match self.help_message_prefix {
            Some(p) => Some(p@),
            None => None,
        }
    }

    /// Builds the registry from an explicitly injected argument list (index 0
    /// conventionally the program name). One pass records, for each flag
    /// token, the part after its first `=`, or else the following plain token.
    pub fn new(args: Vec<String>) -> (r: Flag)
        ensures
            r.args_view() == arg_views(args@),
            r.values_view() == value_map(arg_views(args@)),
            r.descs_view() == Seq::<(Seq<char>, Seq<char>, Type)>::empty(),
            r.prefix_view() is None,
    {
        let values = scan_args(&args);
        let r = Flag { descriptions: Vec::new(), values, args, help_message_prefix: None };
        proof {
            assert(r.descs_view() =~= Seq::<(Seq<char>, Seq<char>, Type)>::empty());
        }
        r
    }

    /// Records (or overwrites) the description and type tag declared for `key`.
    pub fn add_desc(&mut self, key: &str, desc: &str, t: Type)
        ensures
            final(self).descs_view() == desc_insert(old(self).descs_view(), key@, desc@, t),
            final(self).values_view() == old(self).values_view(),
            final(self).args_view() == old(self).args_view(),
            final(self).prefix_view() == old(self).prefix_view(),
    {
        proof {
            use_type_invariant(&*self);
        }
        let ghost ds0 = dm_view(self.descriptions@);
        let key_s = String::from_str(key);
        let desc_s = String::from_str(desc);
        let mut ds: Vec<(String, String, Type)> = Vec::new();
        core::mem::swap(&mut ds, &mut self.descriptions);
        proof {
            assert(dm_view(self.descriptions@) =~= Seq::<(Seq<char>, Seq<char>, Type)>::empty());
        }
        let n = ds.len();
        let mut i: usize = 0;
        while i < n
            invariant
                i <= n,
                n == ds@.len(),
                ds0 == dm_view(ds@),
                desc_keys_unique(ds0),
                key_s@ == key@,
                desc_s@ == desc@,
                forall|j: int| 0 <= j < i ==> ds0[j].0 != key@,
                self.descriptions@.len() == 0,
                self.values@ == old(self).values@,
                self.args@ == old(self).args@,
                self.help_message_prefix == old(self).help_message_prefix,
                ds0 == old(self).descs_view(),
            decreases n - i,
        {
            let hit = ds[i].0 == key_s;
            if hit {
                proof {
                    assert(ds0[i as int].0 == key@);
                    assert(desc_has_key(ds0, key@));
                    let c = desc_index_of(ds0, key@);
                    assert(ds0[c].0 == key@);
                    if c != i as int {
                        assert(false);
                    }
                }
                let ghost pre = ds@;
                ds.remove(i);
                ds.insert(i, (key_s, desc_s, t));
                proof {
                    assert(ds@ =~= pre.update(i as int, (key_s, desc_s, t)));
                    let ds1 = dm_view(ds@);
                    assert(ds1 =~= ds0.update(i as int, (key@, desc@, t)));
                    assert forall|a: int, b: int| 0 <= a < b < ds1.len() implies ds1[a].0
                        != ds1[b].0 by {
                        assert(ds1[a].0 == ds0[a].0);
                        assert(ds1[b].0 == ds0[b].0);
                    }
                }
                core::mem::swap(&mut ds, &mut self.descriptions);
                return;
            }
            i = i + 1;
        }
        proof {
            assert(!desc_has_key(ds0, key@));
        }
        ds.push((key_s, desc_s, t));
        proof {
            assert(dm_view(ds@) =~= ds0.push((key@, desc@, t)));
        }
        core::mem::swap(&mut ds, &mut self.descriptions);
    }

    /// The value recorded for `key`, if the scan recorded one.
    fn lookup(&self, key: &String) -> (r: Option<&String>)
        ensures
            match r {
                Some(v) => self.values_view().contains_key(key@) && v@ == self.values_view()[key@],
                None => !self.values_view().contains_key(key@),
            },
    {
        let n = self.values.len();
        let mut i: usize = n;
        while i > 0
            invariant
                i <= n,
                n == self.values@.len(),
                forall|j: int| i <= j < n ==> self.values@[j].0@ != key@,
            decreases i,
        {
            i = i - 1;
            let hit = self.values[i].0 == *key;
            if hit {
                proof {
                    lemma_vm_view_at(self.values@, i as int);
                }
                return Some(&self.values[i].1);
            }
        }
        proof {
            lemma_vm_view_absent(self.values@, key@);
        }
        None
    }

    /// Sets the prefix prepended to the rendered help text.
    pub fn set_help_message_prefix(&mut self, msg: &str)
        ensures
            final(self).prefix_view() == Some(msg@),
            final(self).descs_view() == old(self).descs_view(),
            final(self).values_view() == old(self).values_view(),
            final(self).args_view() == old(self).args_view(),
    {
        proof {
            use_type_invariant(&*self);
        }
        self.help_message_prefix = Some(String::from_str(msg));
    }

    /// Whether `key` appears as a whole token anywhere in the raw argument
    /// list; declares the flag with a `bool` tag.
    #[verifier::loop_isolation(false)]
    pub fn get_bool(&mut self, key: &str, desc: &str) -> (r: bool)
        ensures
            final(self).descs_view() == desc_insert(old(self).descs_view(), key@, desc@, Type::Bool),
            final(self).values_view() == old(self).values_view(),
            final(self).args_view() == old(self).args_view(),
            final(self).prefix_view() == old(self).prefix_view(),
            r == token_present(old(self).args_view(), key@),
    {
        self.add_desc(key, desc, Type::Bool);
        let key_s = String::from_str(key);
        let n = self.args.len();
        let mut i: usize = 0;
        while i < n
            invariant
                i <= n,
                n == self.args@.len(),
                key_s@ == key@,
                forall|j: int| 0 <= j < i ==> arg_views(self.args@)[j] != key@,
            decreases n - i,
        {
            let hit = self.args[i] == key_s;
            if hit {
                proof {
                    assert(arg_views(self.args@)[i as int] == key@);
                }
                return true;
            }
            i = i + 1;
        }
        false
    }

    /// The raw string recorded for `key`, if any; declares the flag with a
    /// `string` tag.
    pub fn get_str(&mut self, key: &str, desc: &str) -> (r: Option<String>)
        ensures
            final(self).descs_view() == desc_insert(old(self).descs_view(), key@, desc@, Type::String),
            final(self).values_view() == old(self).values_view(),
            final(self).args_view() == old(self).args_view(),
            final(self).prefix_view() == old(self).prefix_view(),
            match r {
                Some(v) => old(self).values_view().contains_key(key@) && v@ == old(
                    self,
                ).values_view()[key@],
                None => !old(self).values_view().contains_key(key@),
            },
    {
        self.add_desc(key, desc, Type::String);
        let key_s = String::from_str(key);
        match self.lookup(&key_s) {
            Some(v) => Some(v.clone()),
            None => None,
        }
    }

    /// The raw string recorded for `key`, or `fallback` when the flag was not
    /// supplied with a value.
    pub fn fget_str(&mut self, key: &str, fallback: &str, desc: &str) -> (r: String)
        ensures
            final(self).descs_view() == desc_insert(old(self).descs_view(), key@, desc@, Type::String),
            final(self).values_view() == old(self).values_view(),
            final(self).args_view() == old(self).args_view(),
            final(self).prefix_view() == old(self).prefix_view(),
            r@ == (if old(self).values_view().contains_key(key@) {
                old(self).values_view()[key@]
            } else {
                fallback@
            }),
    {
        self.add_desc(key, desc, Type::String);
        let key_s = String::from_str(key);
        match self.lookup(&key_s) {
            Some(v) => v.clone(),
            None => String::from_str(fallback),
        }
    }

    /// The value recorded for `key` read as an `i32`; absent when the flag is
    /// missing or its value does not parse.
    pub fn get_i32(&mut self, key: &str, desc: &str) -> (r: Option<i32>)
        ensures
            final(self).descs_view() == desc_insert(old(self).descs_view(), key@, desc@, Type::Number),
            final(self).values_view() == old(self).values_view(),
            final(self).args_view() == old(self).args_view(),
            final(self).prefix_view() == old(self).prefix_view(),
            r == parsed_i32(old(self).values_view(), key@),
    {
        self.add_desc(key, desc, Type::Number);
        let key_s = String::from_str(key);
        match self.lookup(&key_s) {
            Some(v) => parse_i32_str(v.as_str()),
            None => None,
        }
    }

    /// The value recorded for `key` read as an `i32`, or `fallback` when the
    /// flag is missing or its value does not parse.
    pub fn fget_i32(&mut self, key: &str, fallback: i32, desc: &str) -> (r: i32)
        ensures
            final(self).descs_view() == desc_insert(old(self).descs_view(), key@, desc@, Type::Number),
            final(self).values_view() == old(self).values_view(),
            final(self).args_view() == old(self).args_view(),
            final(self).prefix_view() == old(self).prefix_view(),
            r == (match parsed_i32(old(self).values_view(), key@) {
                Some(v) => v,
                None => fallback,
            }),
    {
        match self.get_i32(key, desc) {
            Some(v) => v,
            None => fallback,
        }
    }

    /// The value recorded for `key` read as a `u32`; absent when the flag is
    /// missing or its value does not parse.
    pub fn get_u32(&mut self, key: &str, desc: &str) -> (r: Option<u32>)
        ensures
            final(self).descs_view() == desc_insert(old(self).descs_view(), key@, desc@, Type::Unsigned),
            final(self).values_view() == old(self).values_view(),
            final(self).args_view() == old(self).args_view(),
            final(self).prefix_view() == old(self).prefix_view(),
            r == parsed_u32(old(self).values_view(), key@),
    {
        self.add_desc(key, desc, Type::Unsigned);
        let key_s = String::from_str(key);
        match self.lookup(&key_s) {
            Some(v) => parse_u32_str(v.as_str()),
            None => None,
        }
    }

    /// The value recorded for `key` read as a `u32`, or `fallback` when the
    /// flag is missing or its value does not parse.
    pub fn fget_u32(&mut self, key: &str, fallback: u32, desc: &str) -> (r: u32)
        ensures
            final(self).descs_view() == desc_insert(old(self).descs_view(), key@, desc@, Type::Unsigned),
            final(self).values_view() == old(self).values_view(),
            final(self).args_view() == old(self).args_view(),
            final(self).prefix_view() == old(self).prefix_view(),
            r == (match parsed_u32(old(self).values_view(), key@) {
                Some(v) => v,
                None => fallback,
            }),
    {
        match self.get_u32(key, desc) {
            Some(v) => v,
            None => fallback,
        }
    }

    /// The value recorded for `key` read as any `FromStr` type; absent when
    /// the flag is missing or its value does not convert. What a foreign
    /// `FromStr` implementation accepts is its own affair, so only absence is
    /// pinned down here.
    pub fn get<T: core::str::FromStr>(&mut self, key: &str, desc: &str) -> (r: Option<T>)
        ensures
            final(self).descs_view() == desc_insert(old(self).descs_view(), key@, desc@, Type::Complex),
            final(self).values_view() == old(self).values_view(),
            final(self).args_view() == old(self).args_view(),
            final(self).prefix_view() == old(self).prefix_view(),
            !old(self).values_view().contains_key(key@) ==> r is None,
    {
        self.add_desc(key, desc, Type::Complex);
        let key_s = String::from_str(key);
        match self.lookup(&key_s) {
            Some(v) => parse_via_from_str(v.as_str()),
            None => None,
        }
    }

    /// The value recorded for `key` read as any `FromStr` type, or `fallback`
    /// when the flag is missing or its value does not convert.
    pub fn fget<T: core::str::FromStr>(&mut self, key: &str, fallback: T, desc: &str) -> (r: T)
        ensures
            final(self).descs_view() == desc_insert(old(self).descs_view(), key@, desc@, Type::Complex),
            final(self).values_view() == old(self).values_view(),
            final(self).args_view() == old(self).args_view(),
            final(self).prefix_view() == old(self).prefix_view(),
            !old(self).values_view().contains_key(key@) ==> r == fallback,
    {
        match self.get(key, desc) {
            Some(v) => v,
            None => fallback,
        }
    }

    /// Renders the help text: the optional prefix, a usage line naming the
    /// program (the first raw argument) and every declared flag with its tag,
    /// then one line per declared flag with its description.
    pub fn help(&self) -> (r: String)
        ensures
            r@ == render_help(self.prefix_view(), prog_of(self.args_view()), self.descs_view()),
    {
        crate::help::render_help_exec(&self.help_message_prefix, &self.args, &self.descriptions)
    }
}

/// Relies on str::parse, hence on the type's own `FromStr` implementation,
/// about which nothing is assumed.
#[verifier::external_body]
fn parse_via_from_str<T: core::str::FromStr>(s: &str) -> (r: Option<T>) {
    s.parse().ok()
}

} // verus!
