use vstd::prelude::*;

verus! {

/// The shell's working directory and the one it was in before the last
/// successful `cd` (which `cd -` returns to).
pub struct PwdState {
    pub current_dir: String,
    pub old_dir: String,
}

/// The (current, previous) directories after `cd` from `state` reached
/// `reached`: the directory left becomes the previous one.
pub open spec fn cd_record(state: (Seq<char>, Seq<char>), reached: Seq<char>) -> (
    Seq<char>,
    Seq<char>,
) {
    (reached, state.0)
}

impl PwdState {
    /// The (current, previous) directories.
    pub open spec fn dirs(&self) -> (Seq<char>, Seq<char>) {
        (self.current_dir@, self.old_dir@)
    }

    /// Records that `cd` reached `reached`: it becomes the current
    /// directory and the one left the previous (see `cd_record`).
    pub fn record_cd(&mut self, reached: String)
        ensures
            final(self).dirs() == cd_record(old(self).dirs(), reached@),
    {
        let left = self.get_current_dir();
        self.set_states(reached, left);
    }

    /// A state with the given current and previous directories.
    pub fn new(current_dir: String, old_dir: String) -> (r: PwdState)
        ensures
            r.current_dir@ == current_dir@,
            r.old_dir@ == old_dir@,
    {
        PwdState { current_dir, old_dir }
    }

    /// The current directory.
    pub fn get_current_dir(&self) -> (r: String)
        ensures
            r@ == self.current_dir@,
    {
        self.current_dir.clone()
    }

    /// The directory before the last change.
    pub fn get_old_dir(&self) -> (r: String)
        ensures
            r@ == self.old_dir@,
    {
        self.old_dir.clone()
    }

    /// Records a change of directory: `new_current` is now current and
    /// `old` the previous one.
    pub fn set_states(&mut self, new_current: String, old: String)
        ensures
            final(self).current_dir@ == new_current@,
            final(self).old_dir@ == old@,
    {
        self.current_dir = new_current;
        self.old_dir = old;
    }
}

} // verus!
