//! Diamondback's variable environment: names mapped to frame offsets, kept as
//! a list of bindings in which a later binding of a name hides an earlier one.
use vstd::prelude::*;
use crate::text::str_eq;

verus! {

/// A variable environment.
pub struct VarEnv {
    entries: Vec<(String, i32)>,
}

/// The map that a list of bindings denotes: later bindings win.
pub open spec fn env_map(s: Seq<(String, i32)>) -> Map<Seq<char>, i32>
    decreases s.len(),
{
    if s.len() == 0 {
        Map::empty()
    } else {
        env_map(s.drop_last()).insert(s.last().0@, s.last().1)
    }
}

impl View for VarEnv {
    type V = Map<Seq<char>, i32>;

    closed spec fn view(&self) -> Map<Seq<char>, i32> {
        env_map(self.entries@)
    }
}

/// Bindings after index `i` that do not bind `k` leave its entry as the
/// prefix up to `i` has it.
proof fn lemma_env_suffix(s: Seq<(String, i32)>, i: int, k: Seq<char>)
    requires
        0 <= i <= s.len(),
        forall|j: int| i <= j < s.len() ==> #[trigger] s[j].0@ != k,
    ensures
        env_map(s).contains_key(k) == env_map(s.take(i)).contains_key(k),
        env_map(s).contains_key(k) ==> env_map(s)[k] == env_map(s.take(i))[k],
    decreases s.len() - i,
{
    if i < s.len() {
        let t = s.drop_last();
        assert(t.take(i) =~= s.take(i));
        assert forall|j: int| i <= j < t.len() implies #[trigger] t[j].0@ != k by {
            assert(t[j] == s[j]);
        }
        lemma_env_suffix(t, i, k);
    } else {
        assert(s.take(i) =~= s);
    }
}

impl VarEnv {
    /// The empty environment.
    pub fn new() -> (r: VarEnv)
        ensures
            r@ == Map::<Seq<char>, i32>::empty(),
    {
        VarEnv { entries: Vec::new() }
    }

    /// The offset bound to `name`, if any.
    pub fn get(&self, name: &str) -> (r: Option<i32>)
        ensures
            match r {
                Some(v) => self@.contains_key(name@) && self@[name@] == v,
                None => !self@.contains_key(name@),
            },
    {
        let ghost s = self.entries@;
        let mut i = self.entries.len();
        while i > 0
            invariant
                0 <= i <= s.len(),
                s == self.entries@,
                forall|j: int| i <= j < s.len() ==> #[trigger] s[j].0@ != name@,
            decreases i,
        {
            let entry = &self.entries[i - 1];
            if str_eq(entry.0.as_str(), name) {
                proof {
                    lemma_env_suffix(s, i as int, name@);
                    assert(s.take(i as int).drop_last() =~= s.take(i - 1));
                    assert(s.take(i as int).last() == s[i - 1]);
                }
                return Some(entry.1);
            }
            i -= 1;
        }
        proof {
            lemma_env_suffix(s, 0, name@);
            assert(s.take(0) =~= Seq::<(String, i32)>::empty());
        }
        None
    }

    /// Binds `name` to `offset`, hiding any earlier binding of it.
    pub fn insert(&mut self, name: String, offset: i32)
        ensures
            final(self)@ == old(self)@.insert(name@, offset),
    {
        let ghost prev = self.entries@;
        self.entries.push((name, offset));
        assert(self.entries@.drop_last() =~= prev);
    }

    /// A separate environment with the same bindings.
    pub fn duplicate(&self) -> (r: VarEnv)
        ensures
            r@ == self@,
    {
        let mut entries: Vec<(String, i32)> = Vec::new();
        let mut i: usize = 0;
        while i < self.entries.len()
            invariant
                0 <= i <= self.entries@.len(),
                entries@ =~= self.entries@.take(i as int),
            decreases self.entries.len() - i,
        {
            let e = &self.entries[i];
            entries.push((e.0.clone(), e.1));
            i += 1;
        }
        assert(self.entries@.take(self.entries@.len() as int) =~= self.entries@);
        VarEnv { entries }
    }
}

} // verus!
