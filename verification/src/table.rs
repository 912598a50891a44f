//! Ordered string maps: the injected environment, the output mapping,
//! and the running table of earlier assignments, with the resolution
//! rule for substitution names.
use vstd::prelude::*;
use vstd::std_specs::vec::vec_index;
use crate::chars::{str_eq, chars_to_string, push_str_chars};

verus! {

pub open spec fn opt_str_view(o: Option<String>) -> Option<Seq<char>> {
    match o {
        Option::Some(s) => Option::Some(s@),
        Option::None => Option::None,
    }
}

pub open spec fn str_pairs_map(s: Seq<(String, String)>) -> Map<Seq<char>, Seq<char>>
    decreases s.len(),
{
    if s.len() == 0 {
        Map::empty()
    } else {
        str_pairs_map(s.drop_last()).insert(s.last().0@, s.last().1@)
    }
}

pub open spec fn tbl_pairs_map(s: Seq<(String, Option<String>)>) -> Map<
    Seq<char>,
    Option<Seq<char>>,
>
    decreases s.len(),
{
    if s.len() == 0 {
        Map::empty()
    } else {
        tbl_pairs_map(s.drop_last()).insert(s.last().0@, opt_str_view(s.last().1))
    }
}

/// An ordered mapping of names to values; a later entry for a name
/// overrides an earlier one. It serves both as the injected environment
/// and as the output mapping of a whole-file parse.
pub struct EnvMap {
    entries: Vec<(String, String)>,
}

impl View for EnvMap {
    type V = Map<Seq<char>, Seq<char>>;

    closed spec fn view(&self) -> Map<Seq<char>, Seq<char>> {
        str_pairs_map(self.entries@)
    }
}

impl EnvMap {
    pub closed spec fn entries_seq(&self) -> Seq<(String, String)> {
        self.entries@
    }

    pub fn new() -> (r: EnvMap)
        ensures
            r@ == Map::<Seq<char>, Seq<char>>::empty(),
            r.entries_seq().len() == 0,
    {
        EnvMap { entries: Vec::new() }
    }

    pub fn insert(&mut self, key: String, value: String)
        ensures
            final(self)@ == old(self)@.insert(key@, value@),
            final(self).entries_seq() == old(self).entries_seq().push((key, value)),
    {
        self.entries.push((key, value));
        proof {
            assert(self.entries@.drop_last() =~= old(self).entries@);
        }
    }

    /// The entries in insertion order.
    pub fn entries(&self) -> (r: &Vec<(String, String)>)
        ensures
            r@ == self.entries_seq(),
    {
        &self.entries
    }

    /// The value of `name`: that of its latest entry.
    pub fn get(&self, name: &str) -> (r: Option<String>)
        ensures
            match r {
                Option::Some(v) => self@.contains_key(name@) && v@ == self@[name@],
                Option::None => !self@.contains_key(name@),
            },
    {
        let n = self.entries.len();
        proof {
            assert(self.entries@.subrange(0, n as int) =~= self.entries@);
        }
        let mut j: usize = n;
        while j > 0
            invariant
                j <= n,
                n == self.entries@.len(),
                str_pairs_map(self.entries@.subrange(0, j as int)).contains_key(name@)
                    <==> self@.contains_key(name@),
                str_pairs_map(self.entries@.subrange(0, j as int)).contains_key(name@)
                    ==> str_pairs_map(self.entries@.subrange(0, j as int))[name@] == self@[name@],
            decreases j,
        {
            let pair = vec_index(&self.entries, j - 1);
            proof {
                assert(self.entries@.subrange(0, j as int).drop_last() =~= self.entries@.subrange(
                    0,
                    j - 1,
                ));
                assert(self.entries@.subrange(0, j as int).last() == self.entries@[j - 1]);
            }
            if str_eq(pair.0.as_str(), name) {
                return Option::Some(pair.1.clone());
            }
            j = j - 1;
        }
        proof {
            assert(self.entries@.subrange(0, 0) =~= Seq::<(String, String)>::empty());
        }
        Option::None
    }
}

/// The running table of the assignments parsed so far: a name maps to
/// `Some` of a real value, or to `None` for an assignment with an empty
/// or comment-only right-hand side.
pub struct SubstTable {
    entries: Vec<(String, Option<String>)>,
}

impl View for SubstTable {
    type V = Map<Seq<char>, Option<Seq<char>>>;

    closed spec fn view(&self) -> Map<Seq<char>, Option<Seq<char>>> {
        tbl_pairs_map(self.entries@)
    }
}

impl SubstTable {
    pub closed spec fn entries_seq(&self) -> Seq<(String, Option<String>)> {
        self.entries@
    }

    pub fn new() -> (r: SubstTable)
        ensures
            r@ == Map::<Seq<char>, Option<Seq<char>>>::empty(),
            r.entries_seq().len() == 0,
    {
        SubstTable { entries: Vec::new() }
    }

    pub fn insert(&mut self, key: String, value: Option<String>)
        ensures
            final(self)@ == old(self)@.insert(key@, opt_str_view(value)),
    {
        self.entries.push((key, value));
        proof {
            assert(self.entries@.drop_last() =~= old(self).entries@);
        }
    }

    /// The stored entry for `name`, if any line so far assigned it.
    pub fn get(&self, name: &str) -> (r: Option<Option<String>>)
        ensures
            match r {
                Option::Some(v) => self@.contains_key(name@) && opt_str_view(v) == self@[name@],
                Option::None => !self@.contains_key(name@),
            },
    {
        let n = self.entries.len();
        proof {
            assert(self.entries@.subrange(0, n as int) =~= self.entries@);
        }
        let mut j: usize = n;
        while j > 0
            invariant
                j <= n,
                n == self.entries@.len(),
                tbl_pairs_map(self.entries@.subrange(0, j as int)).contains_key(name@)
                    <==> self@.contains_key(name@),
                tbl_pairs_map(self.entries@.subrange(0, j as int)).contains_key(name@)
                    ==> tbl_pairs_map(self.entries@.subrange(0, j as int))[name@] == self@[name@],
            decreases j,
        {
            let pair = vec_index(&self.entries, j - 1);
            proof {
                assert(self.entries@.subrange(0, j as int).drop_last() =~= self.entries@.subrange(
                    0,
                    j - 1,
                ));
                assert(self.entries@.subrange(0, j as int).last() == self.entries@[j - 1]);
            }
            if str_eq(pair.0.as_str(), name) {
                let v: Option<String> = match &pair.1 {
                    Option::Some(s) => Option::Some(s.clone()),
                    Option::None => Option::None,
                };
                return Option::Some(v);
            }
            j = j - 1;
        }
        proof {
            assert(self.entries@.subrange(0, 0) =~= Seq::<(String, Option<String>)>::empty());
        }
        Option::None
    }
}

/// The replacement text for a substitution name: the environment value
/// when the environment defines the name, else the value of an earlier
/// real assignment, else the empty string.
pub open spec fn resolve_name(
    env: Map<Seq<char>, Seq<char>>,
    tbl: Map<Seq<char>, Option<Seq<char>>>,
    name: Seq<char>,
) -> Seq<char> {
    if env.contains_key(name) {
        env[name]
    } else if tbl.contains_key(name) {
        match tbl[name] {
            Option::Some(v) => v,
            Option::None => Seq::empty(),
        }
    } else {
        Seq::empty()
    }
}

/// Appends to `out` the replacement text for `name`.
pub fn apply_substitution(env: &EnvMap, tbl: &SubstTable, name: &Vec<char>, out: &mut Vec<char>)
    ensures
        final(out)@ == old(out)@ + resolve_name(env@, tbl@, name@),
{
    let name_str = chars_to_string(name);
    match env.get(name_str.as_str()) {
        Option::Some(v) => {
            push_str_chars(out, v.as_str());
        },
        Option::None => {
            match tbl.get(name_str.as_str()) {
                Option::Some(stored) => {
                    match stored {
                        Option::Some(v) => {
                            push_str_chars(out, v.as_str());
                        },
                        Option::None => {
                            proof {
                                assert(out@ =~= old(out)@ + Seq::<char>::empty());
                            }
                        },
                    }
                },
                Option::None => {
                    proof {
                        assert(out@ =~= old(out)@ + Seq::<char>::empty());
                    }
                },
            }
        },
    }
}

} // verus!
