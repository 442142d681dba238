//! The interpreter's environment: a map from variable names to values,
//! kept as a vector of pairs with unique keys.

use vstd::prelude::*;
use vstd::string::*;

use crate::text::str_eq;

verus! {

/// The mathematical contents of a sequence of key/value pairs, later pairs
/// winning over earlier ones.
pub open spec fn pairs_to_map(s: Seq<(String, String)>) -> Map<Seq<char>, Seq<char>>
    decreases s.len(),
{
    if s.len() == 0 {
        Map::empty()
    } else {
        pairs_to_map(s.drop_last()).insert(s.last().0@, s.last().1@)
    }
}

/// If no pair of `s` carries the key `k`, the map of `s` has no entry for it.
proof fn lemma_absent_key(s: Seq<(String, String)>, k: Seq<char>)
    requires
        forall|i: int| 0 <= i < s.len() ==> (#[trigger] s[i]).0@ != k,
    ensures
        !pairs_to_map(s).contains_key(k),
    decreases s.len(),
{
    if s.len() > 0 {
        lemma_absent_key(s.drop_last(), k);
    }
}

/// Removing the (unique) pair that carries `k` removes exactly `k` from the map.
proof fn lemma_remove_key(s: Seq<(String, String)>, i: int, k: Seq<char>)
    requires
        0 <= i < s.len(),
        s[i].0@ == k,
        forall|j: int| 0 <= j < s.len() && j != i ==> (#[trigger] s[j]).0@ != k,
    ensures
        pairs_to_map(s.remove(i)) =~= pairs_to_map(s).remove(k),
    decreases s.len(),
{
    let t = s.remove(i);
    if i == s.len() - 1 {
        assert(t =~= s.drop_last());
        lemma_absent_key(s.drop_last(), k);
        assert(pairs_to_map(s.drop_last()).remove(k) =~= pairs_to_map(s.drop_last()));
    } else {
        assert(t.last() == s.last());
        assert(t.drop_last() =~= s.drop_last().remove(i));
        lemma_remove_key(s.drop_last(), i, k);
    }
}

/// The environment of the interpreter: variable names mapped to values.
pub struct ShellEnv {
    pairs: Vec<(String, String)>,
}

impl ShellEnv {
    /// All keys are distinct; `as_map` then loses no pair.
    pub closed spec fn wf(&self) -> bool {
        forall|i: int, j: int|
            0 <= i < j < self.pairs@.len() ==> (#[trigger] self.pairs@[i]).0@ != (
            #[trigger] self.pairs@[j]).0@
    }

    /// The environment as a mathematical map.
    pub closed spec fn as_map(&self) -> Map<Seq<char>, Seq<char>> {
        pairs_to_map(self.pairs@)
    }

    /// Creates an empty environment.
    pub fn new() -> (r: ShellEnv)
        ensures
            r.wf(),
            r.as_map() =~= Map::<Seq<char>, Seq<char>>::empty(),
    {
        ShellEnv { pairs: Vec::new() }
    }

    /// Looks the name up and returns a copy of its value, if any.
    pub fn get(&self, name: &str) -> (r: Option<String>)
        requires
            self.wf(),
        ensures
            match r {
                Some(v) => self.as_map().contains_key(name@) && v@ == self.as_map()[name@],
                None => !self.as_map().contains_key(name@),
            },
    {
        let n = self.pairs.len();
        let mut i: usize = 0;
        while i < n
            invariant
                0 <= i <= n,
                n == self.pairs@.len(),
                self.wf(),
                forall|j: int| 0 <= j < i ==> (#[trigger] self.pairs@[j]).0@ != name@,
            decreases n - i,
        {
            if str_eq(self.pairs[i].0.as_str(), name) {
                let v = self.pairs[i].1.clone();
                proof {
                    lemma_key_value(self.pairs@, i as int, name@);
                }
                return Some(v);
            }
            i = i + 1;
        }
        proof {
            lemma_absent_key(self.pairs@, name@);
        }
        None
    }

    /// Binds `name` to `value`, replacing any earlier binding.
    pub fn set(&mut self, name: String, value: String)
        requires
            old(self).wf(),
        ensures
            final(self).wf(),
            final(self).as_map() =~= old(self).as_map().insert(name@, value@),
    {
        let n = self.pairs.len();
        let mut i: usize = 0;
        while i < n
            invariant
                0 <= i <= n,
                self.pairs@ == old(self).pairs@,
                n == self.pairs@.len(),
                self.wf(),
                forall|j: int| 0 <= j < i ==> (#[trigger] self.pairs@[j]).0@ != name@,
            decreases n - i,
        {
            if str_eq(self.pairs[i].0.as_str(), name.as_str()) {
                let ghost s0 = self.pairs@;
                self.pairs.remove(i);
                proof {
                    lemma_remove_key(s0, i as int, name@);
                }
                let ghost t = self.pairs@;
                self.pairs.push((name, value));
                proof {
                    assert(self.pairs@.drop_last() =~= t);
                    assert(pairs_to_map(self.pairs@) =~= pairs_to_map(t).insert(
                        self.pairs@.last().0@,
                        self.pairs@.last().1@,
                    ));
                    assert(pairs_to_map(s0).remove(name@).insert(name@, value@) =~= pairs_to_map(
                        s0,
                    ).insert(name@, value@));
                }
                return ;
            }
            i = i + 1;
        }
        proof {
            lemma_absent_key(self.pairs@, name@);
        }
        let ghost t = self.pairs@;
        self.pairs.push((name, value));
        proof {
            assert(self.pairs@.drop_last() =~= t);
            assert(pairs_to_map(self.pairs@) =~= pairs_to_map(t).insert(
                self.pairs@.last().0@,
                self.pairs@.last().1@,
            ));
        }
    }

    /// The environment as a list of name/value pairs, for handing to a
    /// child process: its contents are exactly the environment's map.
    pub fn to_pairs(&self) -> (r: Vec<(String, String)>)
        requires
            self.wf(),
        ensures
            pairs_to_map(r@) == self.as_map(),
    {
        let d = self.duplicate();
        d.pairs
    }

    /// Makes an independent copy with the same contents.
    pub fn duplicate(&self) -> (r: ShellEnv)
        requires
            self.wf(),
        ensures
            r.wf(),
            r.as_map() == self.as_map(),
    {
        let n = self.pairs.len();
        let mut pairs: Vec<(String, String)> = Vec::new();
        let mut i: usize = 0;
        while i < n
            invariant
                0 <= i <= n,
                n == self.pairs@.len(),
                pairs@ =~= self.pairs@.take(i as int),
            decreases n - i,
        {
            pairs.push((self.pairs[i].0.clone(), self.pairs[i].1.clone()));
            assert(pairs@ =~= self.pairs@.take(i + 1));
            i = i + 1;
        }
        proof {
            assert(pairs@ =~= self.pairs@);
        }
        ShellEnv { pairs }
    }
}

/// The effect of applying a list of assignments to an environment, first to
/// last, later assignments to one name shadowing earlier ones.
pub open spec fn apply_assignments_spec(
    m: Map<Seq<char>, Seq<char>>,
    ps: Seq<(Seq<char>, Seq<char>)>,
) -> Map<Seq<char>, Seq<char>>
    decreases ps.len(),
{
    if ps.len() == 0 {
        m
    } else {
        apply_assignments_spec(m.insert(ps[0].0, ps[0].1), ps.drop_first())
    }
}

/// The interpreter's mutable state: the environment handed to every command.
pub struct ShellState {
    pub env: ShellEnv,
}

impl ShellState {
    pub open spec fn wf(&self) -> bool {
        self.env.wf()
    }

    /// Builds the initial state from a list of name/value pairs (normally the
    /// host process's environment), applied first to last.
    pub fn from_pairs(pairs: &Vec<(String, String)>) -> (r: ShellState)
        ensures
            r.wf(),
            r.env.as_map() == apply_assignments_spec(
                Map::<Seq<char>, Seq<char>>::empty(),
                pairs.deep_view(),
            ),
    {
        let mut state = ShellState { env: ShellEnv::new() };
        state.apply_assignments(pairs);
        state
    }

    /// Applies `NAME=value` assignments to the environment, left to right.
    pub fn apply_assignments(&mut self, assignments: &Vec<(String, String)>)
        requires
            old(self).wf(),
        ensures
            final(self).wf(),
            final(self).env.as_map() == apply_assignments_spec(
                old(self).env.as_map(),
                assignments.deep_view(),
            ),
    {
        let n = assignments.len();
        let ghost all = assignments.deep_view();
        let mut i: usize = 0;
        proof {
            assert(all.skip(0) =~= all);
        }
        while i < n
            invariant
                0 <= i <= n,
                n == assignments@.len(),
                all == assignments.deep_view(),
                self.wf(),
                apply_assignments_spec(self.env.as_map(), all.skip(i as int))
                    == apply_assignments_spec(old(self).env.as_map(), all),
            decreases n - i,
        {
            let ghost before = self.env.as_map();
            self.env.set(assignments[i].0.clone(), assignments[i].1.clone());
            proof {
                assert(all.skip(i as int).drop_first() =~= all.skip(i as int + 1));
                assert(all.skip(i as int)[0] == all[i as int]);
                assert(self.env.as_map() =~= before.insert(all[i as int].0, all[i as int].1));
            }
            i = i + 1;
        }
        proof {
            assert(all.skip(n as int) =~= Seq::<(Seq<char>, Seq<char>)>::empty());
        }
    }
}

/// If the pair at `i` carries `k` and no other pair does, the map of `s`
/// holds exactly that pair's value for `k`.
proof fn lemma_key_value(s: Seq<(String, String)>, i: int, k: Seq<char>)
    requires
        0 <= i < s.len(),
        s[i].0@ == k,
        forall|j: int| 0 <= j < s.len() && j != i ==> (#[trigger] s[j]).0@ != k,
    ensures
        pairs_to_map(s).contains_key(k),
        pairs_to_map(s)[k] == s[i].1@,
    decreases s.len(),
{
    if i == s.len() - 1 {
    } else {
        lemma_key_value(s.drop_last(), i, k);
    }
}

} // verus!
