//! A read-only snapshot of the environment.

use crate::text::same_text;
use vstd::prelude::*;

verus! {

/// What a sequence of bindings amounts to: a later binding of a name
/// replaces an earlier one.
spec fn bound(pairs: Seq<(Seq<char>, Seq<char>)>) -> Map<Seq<char>, Seq<char>>
    decreases pairs.len(),
{
    if pairs.len() == 0 {
        Map::empty()
    } else {
        bound(pairs.drop_last()).insert(pairs.last().0, pairs.last().1)
    }
}

/// The variables that a run may consult, each with the text it holds. A
/// name without a binding is an absent variable.
pub struct Environment {
    bindings: Vec<(String, String)>,
}

impl View for Environment {
    type V = Map<Seq<char>, Seq<char>>;

    closed spec fn view(&self) -> Map<Seq<char>, Seq<char>> {
        bound(self.bindings.deep_view())
    }
}

impl Environment {
    /// A snapshot in which every variable is absent.
    pub fn new() -> (env: Environment)
        ensures
            env@ == Map::<Seq<char>, Seq<char>>::empty(),
    {
        let env = Environment { bindings: Vec::new() };
        assert(env.bindings.deep_view() == Seq::<(Seq<char>, Seq<char>)>::empty());
        env
    }

    /// Records that `name` holds `value`, in place of what it held before.
    pub fn set(&mut self, name: &str, value: &str)
        ensures
            final(self)@ == old(self)@.insert(name@, value@),
    {
        let ghost before = self.bindings.deep_view();
        self.bindings.push((String::from_str(name), String::from_str(value)));
        assert(self.bindings.deep_view() == before.push((name@, value@)));
        assert(before.push((name@, value@)).drop_last() == before);
    }

    /// What `name` holds, or `None` where it is absent.
    pub fn get(&self, name: &str) -> (held: Option<&str>)
        ensures
            held.deep_view() == self@.get(name@),
    {
        let ghost pairs = self.bindings.deep_view();
        let mut i: usize = self.bindings.len();
        assert(pairs.take(i as int) == pairs);
        while i > 0
            invariant
                i <= self.bindings.len(),
                pairs == self.bindings.deep_view(),
                bound(pairs).get(name@) == bound(pairs.take(i as int)).get(name@),
            decreases i,
        {
            assert(pairs.take(i as int).drop_last() == pairs.take(i - 1));
            i -= 1;
            if same_text(self.bindings[i].0.as_str(), name) {
                return Some(self.bindings[i].1.as_str());
            }
        }
        None
    }
}

} // verus!
