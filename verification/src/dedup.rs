//! The guard against repeated directives.

use crate::directive::{Directive, DirectiveText};
use crate::text::same_text;
use vstd::prelude::*;

verus! {

/// The directives that a run has worked through and would not repeat: the
/// plain sets and plain appends, each by name, operator and value.
pub struct DedupGuard {
    seen: Vec<Directive>,
}

impl View for DedupGuard {
    type V = Set<DirectiveText>;

    closed spec fn view(&self) -> Set<DirectiveText> {
        self.seen.deep_view().to_set()
    }
}

impl DedupGuard {
    /// A guard that has seen nothing.
    pub fn new() -> (guard: DedupGuard)
        ensures
            guard@ == Set::<DirectiveText>::empty(),
    {
        let guard = DedupGuard { seen: Vec::new() };
        assert(guard.seen.deep_view() == Seq::<DirectiveText>::empty());
        assert(guard@ == Set::<DirectiveText>::empty());
        guard
    }

    /// Whether the guard has seen `directive`.
    pub fn contains(&self, directive: &Directive) -> (seen: bool)
        ensures
            seen == self@.contains(directive@),
    {
        let mut i: usize = 0;
        while i < self.seen.len()
            invariant
                i <= self.seen.len(),
                forall|j: int| 0 <= j < i ==> self.seen.deep_view()[j] != directive@,
            decreases self.seen.len() - i,
        {
            let other = &self.seen[i];
            if other.op == directive.op && same_text(other.name.as_str(), directive.name.as_str())
                && same_text(other.value.as_str(), directive.value.as_str()) {
                assert(self.seen.deep_view()[i as int] == directive@);
                assert(self.seen.deep_view().contains(directive@));
                return true;
            }
            i += 1;
        }
        false
    }

    /// Decides whether `directive` is worked through, and remembers it where
    /// a later repetition is to be suppressed. With `force` on nothing is
    /// suppressed.
    pub fn allow(&mut self, force: bool, directive: &Directive) -> (go: bool)
        ensures
            go == (force || !old(self)@.contains(directive@)),
            final(self)@ == if go && directive.op.is_guarded() {
                old(self)@.insert(directive@)
            } else {
                old(self)@
            },
    {
        if !force && self.contains(directive) {
            return false;
        }
        if directive.op.guarded() {
            let ghost before = self.seen.deep_view();
            self.seen.push(
                Directive::new(directive.name.as_str(), directive.op, directive.value.as_str()),
            );
            assert(self.seen.deep_view() == before.push(directive@));
            proof {
                before.lemma_push_to_set_commute(directive@);
            }
        }
        true
    }
}

} // verus!
