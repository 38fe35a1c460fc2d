use vstd::prelude::*;
use vstd::string::*;
use crate::naming::{branch_name_of, decimal, decimal_of, get_branch_name, valid_ref_name};

verus! {

/// What a stack is, as a mathematical value.
pub ghost struct StackModel {
    pub prefix: Option<Seq<char>>,
    pub base: Seq<char>,
    pub branches: Seq<Seq<char>>,
}

/// A chain of dependent branches over one base branch. Index 0 is the bottom,
/// the branch closest to the base.
pub struct GitStack {
    pub prefix: Option<String>,
    pub base_branch: String,
    pub branches: Vec<String>,
}

/// The registry: every stack that is tracked.
pub struct GsState {
    pub stacks: Vec<GitStack>,
}

pub open spec fn names_of(v: Seq<String>) -> Seq<Seq<char>> {
    v.map_values(|b: String| b@)
}

pub open spec fn opt_view(o: Option<String>) -> Option<Seq<char>> {
    match o {
        Some(s) => Some(s@),
        None => None,
    }
}

impl View for GitStack {
    type V = StackModel;

    open spec fn view(&self) -> StackModel {
        StackModel {
            prefix: opt_view(self.prefix),
            base: self.base_branch@,
            branches: names_of(self.branches@),
        }
    }
}

impl View for GsState {
    type V = Seq<StackModel>;

    open spec fn view(&self) -> Seq<StackModel> {
        self.stacks@.map_values(|s: GitStack| s@)
    }
}

/// Branch `b` stands at index `i` of stack `s`.
pub open spec fn holds_at(reg: Seq<StackModel>, s: int, i: int, b: Seq<char>) -> bool {
    &&& 0 <= s < reg.len()
    &&& 0 <= i < reg[s].branches.len()
    &&& reg[s].branches[i] == b
}

/// Some stack of the registry holds branch `b`.
pub open spec fn is_tracked(reg: Seq<StackModel>, b: Seq<char>) -> bool {
    exists|s: int, i: int| holds_at(reg, s, i, b)
}

/// A stack is never empty, and a branch stands at one place of the registry
/// at most: once in one stack.
pub open spec fn registry_wf(reg: Seq<StackModel>) -> bool {
    &&& forall|s: int| 0 <= s < reg.len() ==> #[trigger] reg[s].branches.len() > 0
    &&& forall|s1: int, i1: int, s2: int, i2: int, b: Seq<char>|
        holds_at(reg, s1, i1, b) && holds_at(reg, s2, i2, b) ==> s1 == s2 && i1 == i2
}

/// Where branch `b` stands in the registry, if anywhere.
pub open spec fn spec_resolve(reg: Seq<StackModel>, b: Seq<char>) -> Option<(int, int)> {
    if is_tracked(reg, b) {
        let p = choose|p: (int, int)| holds_at(reg, p.0, p.1, b);
        Some(p)
    } else {
        None
    }
}

/// The resolution of a tracked branch is the one place where it stands.
pub proof fn lemma_resolve_unique(reg: Seq<StackModel>, s: int, i: int, b: Seq<char>)
    requires
        registry_wf(reg),
        holds_at(reg, s, i, b),
    ensures
        spec_resolve(reg, b) == Some((s, i)),
{
    let w = (s, i);
    assert(holds_at(reg, w.0, w.1, b));
    let p = choose|p: (int, int)| holds_at(reg, p.0, p.1, b);
    assert(holds_at(reg, p.0, p.1, b));
}

/// Why a change to the registry was refused.
#[derive(Debug, Clone, Copy, PartialEq, Eq, Structural)]
pub enum StateError {
    /// The current checkout belongs to no stack.
    NotInStack,
    /// The branch is already part of a stack.
    AlreadyTracked,
}

/// A stack of one branch.
pub open spec fn single_stack(prefix: Option<Seq<char>>, base: Seq<char>, b: Seq<char>) -> StackModel {
    StackModel { prefix, base, branches: seq![b] }
}

/// Stack `st` with branch `b` stacked on top.
pub open spec fn stacked(st: StackModel, b: Seq<char>) -> StackModel {
    StackModel { prefix: st.prefix, base: st.base, branches: st.branches.push(b) }
}

/// Stack `st` without the branch at index `i`.
pub open spec fn without(st: StackModel, i: int) -> StackModel {
    StackModel { prefix: st.prefix, base: st.base, branches: st.branches.remove(i) }
}

/// The registry after branch `b` is dropped: its stack loses it, and a stack
/// left empty leaves the registry. An untracked branch changes nothing.
pub open spec fn spec_remove(reg: Seq<StackModel>, b: Seq<char>) -> Seq<StackModel> {
    match spec_resolve(reg, b) {
        None => reg,
        Some(p) => if reg[p.0].branches.len() == 1 {
            reg.remove(p.0)
        } else {
            reg.update(p.0, without(reg[p.0], p.1))
        },
    }
}

/// What to check out after branch `b` is dropped while `current` is checked
/// out: nothing unless `b` is the checkout; then the new bottom of its stack,
/// or the stack's base branch when no branch is left.
pub open spec fn spec_checkout_after_remove(
    reg: Seq<StackModel>,
    b: Seq<char>,
    current: Seq<char>,
) -> Option<Seq<char>> {
    match spec_resolve(reg, b) {
        None => None,
        Some(p) => if current != b {
            None
        } else if reg[p.0].branches.len() == 1 {
            Some(reg[p.0].base)
        } else {
            Some(reg[p.0].branches.remove(p.1)[0])
        },
    }
}

/// Every branch of the registry, stack by stack, bottom first.
pub open spec fn all_names(reg: Seq<StackModel>) -> Seq<Seq<char>> {
    reg.map_values(|st: StackModel| st.branches).flatten()
}

/// A resolved branch stands where it was resolved.
pub proof fn lemma_resolve_holds(reg: Seq<StackModel>, b: Seq<char>)
    ensures
        spec_resolve(reg, b) matches Some(p) ==> holds_at(reg, p.0, p.1, b),
{
    if is_tracked(reg, b) {
        let (s, i) = choose|s: int, i: int| holds_at(reg, s, i, b);
        let w = (s, i);
        assert(holds_at(reg, w.0, w.1, b));
    }
}

/// A change to the registry, as a mathematical value.
pub ghost enum RegistryOp {
    /// Start a stack over `base` with bottom branch `branch`.
    Start { prefix: Option<Seq<char>>, base: Seq<char>, branch: Seq<char> },
    /// Stack `branch` on the stack that holds `current`.
    Stack { current: Seq<char>, branch: Seq<char> },
    /// Drop `branch` from its stack.
    Drop { branch: Seq<char> },
    /// Forget every stack.
    Clear,
}

/// The registry after one change; a refused change leaves it as it is.
pub open spec fn apply_op(reg: Seq<StackModel>, op: RegistryOp) -> Seq<StackModel> {
    match op {
        RegistryOp::Start { prefix, base, branch } => if is_tracked(reg, branch) {
            reg
        } else {
            reg.push(single_stack(prefix, base, branch))
        },
        RegistryOp::Stack { current, branch } => match spec_resolve(reg, current) {
            Some(p) => if is_tracked(reg, branch) {
                reg
            } else {
                reg.update(p.0, stacked(reg[p.0], branch))
            },
            None => reg,
        },
        RegistryOp::Drop { branch } => spec_remove(reg, branch),
        RegistryOp::Clear => Seq::empty(),
    }
}

/// The registry after a sequence of changes, applied first to last.
pub open spec fn apply_ops(reg: Seq<StackModel>, ops: Seq<RegistryOp>) -> Seq<StackModel>
    decreases ops.len(),
{
    if ops.len() == 0 {
        reg
    } else {
        apply_ops(apply_op(reg, ops[0]), ops.drop_first())
    }
}

pub proof fn lemma_start_keeps_wf(
    reg: Seq<StackModel>,
    prefix: Option<Seq<char>>,
    base: Seq<char>,
    b: Seq<char>,
)
    requires
        registry_wf(reg),
        !is_tracked(reg, b),
    ensures
        registry_wf(reg.push(single_stack(prefix, base, b))),
{
    let r2 = reg.push(single_stack(prefix, base, b));
    assert forall|s1: int, i1: int, s2: int, i2: int, b1: Seq<char>|
        holds_at(r2, s1, i1, b1) && holds_at(r2, s2, i2, b1) implies s1 == s2 && i1 == i2 by {
        if s1 < reg.len() {
            assert(holds_at(reg, s1, i1, b1));
        }
        if s2 < reg.len() {
            assert(holds_at(reg, s2, i2, b1));
        }
    }
    assert forall|s: int| 0 <= s < r2.len() implies #[trigger] r2[s].branches.len() > 0 by {
        if s < reg.len() {
            assert(r2[s] == reg[s]);
        }
    }
}

pub proof fn lemma_stack_keeps_wf(reg: Seq<StackModel>, current: Seq<char>, b: Seq<char>)
    requires
        registry_wf(reg),
        spec_resolve(reg, current) is Some,
        !is_tracked(reg, b),
    ensures
        match spec_resolve(reg, current) {
            Some(p) => registry_wf(reg.update(p.0, stacked(reg[p.0], b))),
            None => true,
        },
{
    lemma_resolve_holds(reg, current);
    let p = spec_resolve(reg, current).unwrap();
    let s = p.0;
    let r2 = reg.update(s, stacked(reg[s], b));
    assert forall|s1: int, i1: int, b1: Seq<char>| #[trigger] holds_at(r2, s1, i1, b1) implies (i1
        < reg[s1].branches.len() && holds_at(reg, s1, i1, b1)) || (s1 == s && i1
        == reg[s1].branches.len() && b1 == b) by {
        if s1 != s {
            assert(r2[s1] == reg[s1]);
        } else if i1 < reg[s1].branches.len() {
            assert(r2[s1].branches[i1] == reg[s1].branches[i1]);
        }
    }
    assert forall|s2: int| 0 <= s2 < r2.len() implies #[trigger] r2[s2].branches.len() > 0 by {
        assert(reg[s2].branches.len() > 0);
    }
}

pub proof fn lemma_remove_keeps_wf(reg: Seq<StackModel>, b: Seq<char>)
    requires
        registry_wf(reg),
    ensures
        registry_wf(spec_remove(reg, b)),
{
    lemma_resolve_holds(reg, b);
    if let Some(p) = spec_resolve(reg, b) {
        let s = p.0;
        let i = p.1;
        let r2 = spec_remove(reg, b);
        // Every place of the new registry comes from a distinct place of the old one.
        assert forall|s1: int, i1: int, b1: Seq<char>| #[trigger] holds_at(r2, s1, i1, b1) implies holds_at(
            reg,
            if reg[s].branches.len() == 1 && s1 >= s {
                s1 + 1
            } else {
                s1
            },
            if reg[s].branches.len() > 1 && s1 == s && i1 >= i {
                i1 + 1
            } else {
                i1
            },
            b1,
        ) by {
            if reg[s].branches.len() == 1 {
                if s1 >= s {
                    assert(r2[s1] == reg[s1 + 1]);
                } else {
                    assert(r2[s1] == reg[s1]);
                }
            } else if s1 != s {
                assert(r2[s1] == reg[s1]);
            }
        }
        assert forall|s2: int| 0 <= s2 < r2.len() implies #[trigger] r2[s2].branches.len() > 0 by {
            if reg[s].branches.len() == 1 {
                if s2 >= s {
                    assert(r2[s2] == reg[s2 + 1]);
                } else {
                    assert(r2[s2] == reg[s2]);
                }
            } else if s2 != s {
                assert(r2[s2] == reg[s2]);
            }
        }
    }
}

/// Whatever changes are made to a well-formed registry, it stays well formed:
/// in particular no stack in it is ever empty, and no branch is in two places.
pub proof fn lemma_stacks_never_empty(reg: Seq<StackModel>, ops: Seq<RegistryOp>)
    requires
        registry_wf(reg),
    ensures
        registry_wf(apply_ops(reg, ops)),
        forall|s: int|
            0 <= s < apply_ops(reg, ops).len() ==> #[trigger] apply_ops(reg, ops)[s].branches.len()
                > 0,
    decreases ops.len(),
{
    if ops.len() > 0 {
        let next = apply_op(reg, ops[0]);
        match ops[0] {
            RegistryOp::Start { prefix, base, branch } => {
                if !is_tracked(reg, branch) {
                    lemma_start_keeps_wf(reg, prefix, base, branch);
                }
            },
            RegistryOp::Stack { current, branch } => {
                if spec_resolve(reg, current) is Some && !is_tracked(reg, branch) {
                    lemma_stack_keeps_wf(reg, current, branch);
                }
            },
            RegistryOp::Drop { branch } => {
                lemma_remove_keeps_wf(reg, branch);
            },
            RegistryOp::Clear => {},
        }
        lemma_stacks_never_empty(next, ops.drop_first());
    }
}

/// Every branch of a well-formed registry resolves to the stack and the index
/// where it stands.
pub proof fn lemma_resolve_round_trip(reg: Seq<StackModel>, s: int, i: int)
    requires
        registry_wf(reg),
        0 <= s < reg.len(),
        0 <= i < reg[s].branches.len(),
    ensures
        spec_resolve(reg, reg[s].branches[i]) == Some((s, i)),
{
    lemma_resolve_unique(reg, s, i, reg[s].branches[i]);
}

/// A branch stacked on the stack of `current` resolves to that stack, at the
/// index it was put at: the top.
pub proof fn lemma_resolve_stacked(reg: Seq<StackModel>, current: Seq<char>, b: Seq<char>)
    requires
        registry_wf(reg),
        spec_resolve(reg, current) is Some,
        !is_tracked(reg, b),
    ensures
        match spec_resolve(reg, current) {
            Some(p) => spec_resolve(apply_op(reg, RegistryOp::Stack { current, branch: b }), b)
                == Some((p.0, reg[p.0].branches.len() as int)),
            None => true,
        },
{
    lemma_resolve_holds(reg, current);
    lemma_stack_keeps_wf(reg, current, b);
    let p = spec_resolve(reg, current).unwrap();
    let r2 = apply_op(reg, RegistryOp::Stack { current, branch: b });
    assert(holds_at(r2, p.0, reg[p.0].branches.len() as int, b));
    lemma_resolve_unique(r2, p.0, reg[p.0].branches.len() as int, b);
}

/// The bottom branch of a newly started stack resolves to that stack, at
/// index 0.
pub proof fn lemma_resolve_started(
    reg: Seq<StackModel>,
    prefix: Option<Seq<char>>,
    base: Seq<char>,
    b: Seq<char>,
)
    requires
        registry_wf(reg),
        !is_tracked(reg, b),
    ensures
        spec_resolve(apply_op(reg, RegistryOp::Start { prefix, base, branch: b }), b) == Some(
            (reg.len() as int, 0int),
        ),
{
    lemma_start_keeps_wf(reg, prefix, base, b);
    let r2 = apply_op(reg, RegistryOp::Start { prefix, base, branch: b });
    assert(holds_at(r2, reg.len() as int, 0, b));
    lemma_resolve_unique(r2, reg.len() as int, 0, b);
}

/// Dropping a branch that no stack tracks changes nothing and checks nothing
/// out.
pub proof fn lemma_remove_untracked(reg: Seq<StackModel>, b: Seq<char>, current: Seq<char>)
    requires
        !is_tracked(reg, b),
    ensures
        spec_remove(reg, b) == reg,
        spec_checkout_after_remove(reg, b, current) is None,
{
}

/// Dropping the checked-out branch checks out the new bottom of its stack
/// when branches are left, and otherwise the stack's base branch, whose stack
/// then leaves the registry.
pub proof fn lemma_remove_checkout(reg: Seq<StackModel>, s: int, i: int)
    requires
        registry_wf(reg),
        0 <= s < reg.len(),
        0 <= i < reg[s].branches.len(),
    ensures
        reg[s].branches.len() > 1 ==> spec_checkout_after_remove(
            reg,
            reg[s].branches[i],
            reg[s].branches[i],
        ) == Some(reg[s].branches.remove(i)[0]) && spec_remove(reg, reg[s].branches[i])[s].branches
            == reg[s].branches.remove(i),
        reg[s].branches.len() == 1 ==> spec_checkout_after_remove(
            reg,
            reg[s].branches[i],
            reg[s].branches[i],
        ) == Some(reg[s].base) && spec_remove(reg, reg[s].branches[i]) == reg.remove(s),
{
    lemma_resolve_unique(reg, s, i, reg[s].branches[i]);
}

impl GsState {
    pub open spec fn wf(&self) -> bool {
        registry_wf(self@)
    }

    /// An empty registry.
    pub fn new() -> (r: GsState)
        ensures
            r@ == Seq::<StackModel>::empty(),
            r.wf(),
    {
        let r = GsState { stacks: Vec::new() };
        assert(r@ =~= Seq::<StackModel>::empty());
        r
    }

    /// The stack and index where `branch` stands, or `None` when no stack
    /// tracks it.
    pub fn resolve(&self, branch: &String) -> (r: Option<(usize, usize)>)
        requires
            self.wf(),
        ensures
            r matches Some(p) ==> spec_resolve(self@, branch@) == Some((p.0 as int, p.1 as int))
                && holds_at(self@, p.0 as int, p.1 as int, branch@),
            r is None ==> spec_resolve(self@, branch@) is None,
    {
        let mut s: usize = 0;
        while s < self.stacks.len()
            invariant
                self.wf(),
                s <= self.stacks.len(),
                forall|s0: int, i0: int| 0 <= s0 < s ==> !holds_at(self@, s0, i0, branch@),
            decreases self.stacks.len() - s,
        {
            let stack = &self.stacks[s];
            let mut i: usize = 0;
            while i < stack.branches.len()
                invariant
                    self.wf(),
                    s < self.stacks.len(),
                    stack == self.stacks@[s as int],
                    i <= stack.branches.len(),
                    forall|i0: int| 0 <= i0 < i ==> !holds_at(self@, s as int, i0, branch@),
                decreases stack.branches.len() - i,
            {
                if stack.branches[i] == *branch {
                    proof {
                        lemma_resolve_unique(self@, s as int, i as int, branch@);
                    }
                    return Some((s, i));
                }
                i = i + 1;
            }
            s = s + 1;
        }
        None
    }
}

impl GsState {
    /// Whether `branch` is tracked by some stack.
    pub fn tracks(&self, branch: &String) -> (r: bool)
        requires
            self.wf(),
        ensures
            r == is_tracked(self@, branch@),
    {
        match self.resolve(branch) {
            Some(p) => {
                proof {
                    let w = (p.0 as int, p.1 as int);
                    assert(holds_at(self@, w.0, w.1, branch@));
                }
                true
            },
            None => false,
        }
    }

    /// Starts a stack over `base` whose bottom branch is `branch`. Refused
    /// when `branch` is already tracked.
    pub fn push_stack(&mut self, prefix: Option<String>, base: String, branch: String) -> (r: Result<
        (),
        StateError,
    >)
        requires
            old(self).wf(),
        ensures
            final(self).wf(),
            is_tracked(old(self)@, branch@) ==> r == Err::<(), StateError>(StateError::AlreadyTracked)
                && final(self)@ == old(self)@,
            !is_tracked(old(self)@, branch@) ==> r is Ok && final(self)@ == old(self)@.push(
                single_stack(opt_view(prefix), base@, branch@),
            ),
    {
        if self.tracks(&branch) {
            return Err(StateError::AlreadyTracked);
        }
        let ghost old_reg = self@;
        let mut branches: Vec<String> = Vec::new();
        branches.push(branch);
        let st = GitStack { prefix, base_branch: base, branches };
        assert(st@.branches =~= seq![branch@]);
        self.stacks.push(st);
        assert(self@ =~= old_reg.push(st@));
        proof {
            lemma_start_keeps_wf(old_reg, opt_view(prefix), base@, branch@);
        }
        Ok(())
    }

    /// Stacks `branch` on top of the stack that holds `current`. Refused when
    /// `current` is in no stack, or when `branch` is already tracked.
    pub fn add_branch(&mut self, current: &String, branch: String) -> (r: Result<(), StateError>)
        requires
            old(self).wf(),
        ensures
            final(self).wf(),
            spec_resolve(old(self)@, current@) is None ==> r == Err::<(), StateError>(
                StateError::NotInStack,
            ) && final(self)@ == old(self)@,
            spec_resolve(old(self)@, current@) is Some && is_tracked(old(self)@, branch@) ==> r
                == Err::<(), StateError>(StateError::AlreadyTracked) && final(self)@ == old(
                self,
            )@,
            match spec_resolve(old(self)@, current@) {
                Some(p) => !is_tracked(old(self)@, branch@) ==> r is Ok && final(self)@ == old(
                    self,
                )@.update(p.0, stacked(old(self)@[p.0], branch@)),
                None => true,
            },
    {
        let pos = match self.resolve(current) {
            Some(p) => p,
            None => {
                return Err(StateError::NotInStack);
            },
        };
        if self.tracks(&branch) {
            return Err(StateError::AlreadyTracked);
        }
        let ghost old_reg = self@;
        let ghost b = branch@;
        let s = pos.0;
        let mut st = self.stacks.remove(s);
        st.branches.push(branch);
        self.stacks.insert(s, st);
        let ghost new_st = stacked(old_reg[s as int], b);
        assert(st@.branches =~= new_st.branches);
        assert(self@ =~= old_reg.update(s as int, new_st));
        proof {
            lemma_stack_keeps_wf(old_reg, current@, b);
        }
        Ok(())
    }

    /// Drops `branch` from its stack, and the stack from the registry when it
    /// is left empty; an untracked branch changes nothing. Returns the branch
    /// to check out: some only when `branch` is the checkout `current`.
    pub fn remove_branch(&mut self, branch: &String, current: &String) -> (r: Option<String>)
        requires
            old(self).wf(),
        ensures
            final(self).wf(),
            final(self)@ == spec_remove(old(self)@, branch@),
            opt_view(r) == spec_checkout_after_remove(old(self)@, branch@, current@),
    {
        let pos = match self.resolve(branch) {
            Some(p) => p,
            None => {
                return None;
            },
        };
        let ghost old_reg = self@;
        let s = pos.0;
        let i = pos.1;
        let mut st = self.stacks.remove(s);
        st.branches.remove(i);
        assert(st@.branches =~= old_reg[s as int].branches.remove(i as int));
        let checkout = if *current == *branch {
            if st.branches.len() == 0 {
                Some(st.base_branch.clone())
            } else {
                Some(st.branches[0].clone())
            }
        } else {
            None
        };
        if st.branches.len() > 0 {
            self.stacks.insert(s, st);
            assert(self@ =~= old_reg.update(s as int, without(old_reg[s as int], i as int)));
        } else {
            assert(self@ =~= old_reg.remove(s as int));
        }
        proof {
            lemma_remove_keeps_wf(old_reg, branch@);
        }
        checkout
    }

    /// Whether `b` stands anywhere but at index `i` of stack `s`.
    fn occurs_elsewhere(&self, b: &String, s: usize, i: usize) -> (r: bool)
        ensures
            r == exists|s2: int, i2: int|
                holds_at(self@, s2, i2, b@) && !(s2 == s && i2 == i),
    {
        let mut t: usize = 0;
        while t < self.stacks.len()
            invariant
                t <= self.stacks.len(),
                forall|s2: int, i2: int|
                    0 <= s2 < t && holds_at(self@, s2, i2, b@) ==> s2 == s && i2 == i,
            decreases self.stacks.len() - t,
        {
            let stack = &self.stacks[t];
            let mut j: usize = 0;
            while j < stack.branches.len()
                invariant
                    t < self.stacks.len(),
                    stack == self.stacks@[t as int],
                    j <= stack.branches.len(),
                    forall|s2: int, i2: int|
                        0 <= s2 < t && holds_at(self@, s2, i2, b@) ==> s2 == s && i2 == i,
                    forall|i2: int|
                        0 <= i2 < j && holds_at(self@, t as int, i2, b@) ==> t == s && i2 == i,
                decreases stack.branches.len() - j,
            {
                if stack.branches[j] == *b && !(t == s && j == i) {
                    assert(holds_at(self@, t as int, j as int, b@));
                    return true;
                }
                j = j + 1;
            }
            t = t + 1;
        }
        false
    }

    /// Whether the registry is well formed: no stack is empty and no branch
    /// stands in two places. A registry read back from storage is checked
    /// with this before it is used.
    pub fn is_well_formed(&self) -> (r: bool)
        ensures
            r == self.wf(),
    {
        let mut s: usize = 0;
        while s < self.stacks.len()
            invariant
                s <= self.stacks.len(),
                forall|s0: int| 0 <= s0 < s ==> #[trigger] self@[s0].branches.len() > 0,
                forall|s0: int, i0: int, s2: int, i2: int, b: Seq<char>|
                    0 <= s0 < s && holds_at(self@, s0, i0, b) && holds_at(self@, s2, i2, b) ==> s0
                        == s2 && i0 == i2,
            decreases self.stacks.len() - s,
        {
            let stack = &self.stacks[s];
            if stack.branches.len() == 0 {
                assert(self@[s as int].branches.len() == 0);
                return false;
            }
            let mut i: usize = 0;
            while i < stack.branches.len()
                invariant
                    s < self.stacks.len(),
                    stack == self.stacks@[s as int],
                    i <= stack.branches.len(),
                    forall|s0: int| 0 <= s0 < s ==> #[trigger] self@[s0].branches.len() > 0,
                    forall|s0: int, i0: int, s2: int, i2: int, b: Seq<char>|
                        0 <= s0 < s && holds_at(self@, s0, i0, b) && holds_at(self@, s2, i2, b)
                            ==> s0 == s2 && i0 == i2,
                    forall|i0: int, s2: int, i2: int, b: Seq<char>|
                        0 <= i0 < i && holds_at(self@, s as int, i0, b) && holds_at(
                            self@,
                            s2,
                            i2,
                            b,
                        ) ==> s == s2 && i0 == i2,
                decreases stack.branches.len() - i,
            {
                if self.occurs_elsewhere(&stack.branches[i], s, i) {
                    proof {
                        let b = stack.branches@[i as int]@;
                        let (s2, i2) = choose|s2: int, i2: int|
                            holds_at(self@, s2, i2, b) && !(s2 == s && i2 == i);
                        assert(holds_at(self@, s as int, i as int, b));
                        assert(holds_at(self@, s2, i2, b));
                    }
                    return false;
                }
                i = i + 1;
            }
            s = s + 1;
        }
        true
    }

    /// Forgets every stack.
    pub fn reset(&mut self)
        ensures
            final(self)@ == Seq::<StackModel>::empty(),
            final(self).wf(),
    {
        self.stacks = Vec::new();
        assert(self@ =~= Seq::<StackModel>::empty());
    }

    /// Every tracked branch, stack by stack, bottom first.
    pub fn all_branches(&self) -> (r: Vec<String>)
        ensures
            names_of(r@) == all_names(self@),
    {
        let mut r: Vec<String> = Vec::new();
        let mut s: usize = 0;
        while s < self.stacks.len()
            invariant
                s <= self.stacks.len(),
                names_of(r@) == all_names(self@.subrange(0, s as int)),
            decreases self.stacks.len() - s,
        {
            let ghost before = r@;
            let stack = &self.stacks[s];
            let mut i: usize = 0;
            while i < stack.branches.len()
                invariant
                    s < self.stacks.len(),
                    stack == self.stacks@[s as int],
                    i <= stack.branches.len(),
                    names_of(r@) == all_names(self@.subrange(0, s as int)) + self@[s as int].branches.subrange(
                        0,
                        i as int,
                    ),
                decreases stack.branches.len() - i,
            {
                let ghost prev = r@;
                let x = stack.branches[i].clone();
                r.push(x);
                proof {
                    let a = all_names(self@.subrange(0, s as int));
                    let bs = self@[s as int].branches;
                    assert(x@ == bs[i as int]);
                    assert(names_of(r@) =~= names_of(prev).push(x@));
                    assert(a + bs.subrange(0, i + 1) =~= (a + bs.subrange(0, i as int)).push(
                        bs[i as int],
                    ));
                }
                i = i + 1;
            }
            proof {
                let pre = self@.subrange(0, s as int);
                let bs = self@[s as int].branches;
                assert(bs.subrange(0, bs.len() as int) =~= bs);
                assert(self@.subrange(0, s + 1) =~= pre.push(self@[s as int]));
                assert(self@.subrange(0, s + 1).map_values(|st: StackModel| st.branches)
                    =~= pre.map_values(|st: StackModel| st.branches).push(bs));
                pre.map_values(|st: StackModel| st.branches).lemma_flatten_push(bs);
            }
            s = s + 1;
        }
        assert(self@.subrange(0, self@.len() as int) =~= self@);
        r
    }

    /// The index of the stack that holds `current`, if any.
    pub fn stack_of(&self, current: &String) -> (r: Option<usize>)
        requires
            self.wf(),
        ensures
            match spec_resolve(self@, current@) {
                Some(p) => r == Some(p.0 as usize),
                None => r is None,
            },
    {
        match self.resolve(current) {
            Some(p) => Some(p.0),
            None => None,
        }
    }

    /// The branch right above `current` in its stack, if any.
    pub fn branch_above(&self, current: &String) -> (r: Option<String>)
        requires
            self.wf(),
        ensures
            opt_view(r) == match spec_resolve(self@, current@) {
                Some(p) => if p.1 + 1 < self@[p.0].branches.len() {
                    Some(self@[p.0].branches[p.1 + 1])
                } else {
                    None
                },
                None => None,
            },
    {
        match self.resolve(current) {
            Some(p) => {
                let stack = &self.stacks[p.0];
                if p.1 < stack.branches.len() - 1 {
                    Some(stack.branches[p.1 + 1].clone())
                } else {
                    None
                }
            },
            None => None,
        }
    }

    /// The branch right below `current` in its stack, if any; the bottom
    /// branch has none.
    pub fn branch_below(&self, current: &String) -> (r: Option<String>)
        requires
            self.wf(),
        ensures
            opt_view(r) == match spec_resolve(self@, current@) {
                Some(p) => if p.1 > 0 {
                    Some(self@[p.0].branches[p.1 - 1])
                } else {
                    None
                },
                None => None,
            },
    {
        match self.resolve(current) {
            Some(p) => {
                if p.1 > 0 {
                    Some(self.stacks[p.0].branches[p.1 - 1].clone())
                } else {
                    None
                }
            },
            None => None,
        }
    }

    /// The base branch of the stack that holds `current`, if any.
    pub fn base_of(&self, current: &String) -> (r: Option<String>)
        requires
            self.wf(),
        ensures
            opt_view(r) == match spec_resolve(self@, current@) {
                Some(p) => Some(self@[p.0].base),
                None => None,
            },
    {
        match self.resolve(current) {
            Some(p) => Some(self.stacks[p.0].base_branch.clone()),
            None => None,
        }
    }
}

/// The label of the entry for branch `b` at index `i` in a list to choose
/// from.
pub open spec fn choice_label(i: nat, b: Seq<char>) -> Seq<char> {
    "("@ + decimal_of(i) + "): "@ + b
}

fn label(i: usize, b: &String) -> (r: String)
    ensures
        r@ == choice_label(i as nat, b@),
{
    let mut r = String::from_str("(");
    let d = decimal(i as u64);
    r.append(d.as_str());
    r.append("): ");
    r.append(b.as_str());
    r
}

/// Why a stack could not be started or grown.
#[derive(Debug, Clone, Copy, PartialEq, Eq, Structural)]
pub enum StackError {
    /// The current checkout belongs to no stack.
    NotInStack,
    /// The branch is already part of a stack.
    AlreadyTracked,
    /// The prefix and the name make no valid branch name.
    InvalidBranchName,
}

impl GitStack {
    /// The entries to choose a branch of the stack from, top first: entry `k`
    /// names the branch at index `n - 1 - k` with its index.
    pub fn branch_choices(&self) -> (r: Vec<String>)
        ensures
            r.len() == self.branches.len(),
            forall|k: int|
                0 <= k < r.len() ==> #[trigger] r@[k]@ == choice_label(
                    (self.branches.len() - 1 - k) as nat,
                    self@.branches[self.branches.len() - 1 - k],
                ),
    {
        let n = self.branches.len();
        let mut r: Vec<String> = Vec::new();
        let mut k: usize = 0;
        while k < n
            invariant
                n == self.branches.len(),
                k <= n,
                r.len() == k,
                forall|j: int|
                    0 <= j < k ==> #[trigger] r@[j]@ == choice_label(
                        (n - 1 - j) as nat,
                        self@.branches[n - 1 - j],
                    ),
            decreases n - k,
        {
            let i = n - 1 - k;
            r.push(label(i, &self.branches[i]));
            k = k + 1;
        }
        r
    }

    /// The branch that entry `k` of `branch_choices` names.
    pub fn branch_of_choice(&self, k: usize) -> (r: Option<String>)
        ensures
            k < self.branches.len() ==> opt_view(r) == Some(
                self@.branches[self.branches.len() - 1 - k],
            ),
            k >= self.branches.len() ==> r is None,
    {
        if k < self.branches.len() {
            Some(self.branches[self.branches.len() - 1 - k].clone())
        } else {
            None
        }
    }
}

/// The prefix of a stack, empty when it has none.
pub open spec fn shown_prefix(p: Option<Seq<char>>) -> Seq<char> {
    match p {
        Some(x) => x,
        None => Seq::empty(),
    }
}

impl GsState {
    /// The entries to choose a stack from: entry `i` names stack `i` by its
    /// prefix.
    pub fn stack_choices(&self) -> (r: Vec<String>)
        ensures
            r.len() == self.stacks.len(),
            forall|i: int|
                0 <= i < r.len() ==> #[trigger] r@[i]@ == choice_label(
                    i as nat,
                    shown_prefix(self@[i].prefix),
                ),
    {
        let mut r: Vec<String> = Vec::new();
        let mut i: usize = 0;
        while i < self.stacks.len()
            invariant
                i <= self.stacks.len(),
                r.len() == i,
                forall|j: int|
                    0 <= j < i ==> #[trigger] r@[j]@ == choice_label(
                        j as nat,
                        shown_prefix(self@[j].prefix),
                    ),
            decreases self.stacks.len() - i,
        {
            let p = match &self.stacks[i].prefix {
                Some(p) => p.clone(),
                None => String::new(),
            };
            r.push(label(i, &p));
            i = i + 1;
        }
        r
    }

    /// The bottom branch of stack `i`, to check out when that stack is chosen.
    pub fn bottom_of_stack(&self, i: usize) -> (r: Option<String>)
        requires
            self.wf(),
        ensures
            i < self.stacks.len() ==> opt_view(r) == Some(self@[i as int].branches[0]),
            i >= self.stacks.len() ==> r is None,
    {
        if i < self.stacks.len() {
            assert(self@[i as int].branches.len() > 0);
            Some(self.stacks[i].branches[0].clone())
        } else {
            None
        }
    }

    /// Starts a stack over `current`, the branch checked out now, whose
    /// bottom branch is `prefix/name`; returns that branch's name. Refused
    /// when the name is invalid or already tracked.
    pub fn new_stack(&mut self, prefix: String, name: &String, current: String) -> (r: Result<
        String,
        StackError,
    >)
        requires
            old(self).wf(),
        ensures
            final(self).wf(),
            !valid_ref_name(branch_name_of(prefix@, name@)) ==> r == Err::<String, StackError>(
                StackError::InvalidBranchName,
            ) && final(self)@ == old(self)@,
            valid_ref_name(branch_name_of(prefix@, name@)) && is_tracked(
                old(self)@,
                branch_name_of(prefix@, name@),
            ) ==> r == Err::<String, StackError>(StackError::AlreadyTracked) && final(self)@ == old(
                self,
            )@,
            valid_ref_name(branch_name_of(prefix@, name@)) && !is_tracked(
                old(self)@,
                branch_name_of(prefix@, name@),
            ) ==> (r matches Ok(b) && b@ == branch_name_of(prefix@, name@)) && final(self)@ == old(
                self,
            )@.push(single_stack(Some(prefix@), current@, branch_name_of(prefix@, name@))),
    {
        let branch = match get_branch_name(&prefix, name) {
            Ok(b) => b,
            Err(_) => {
                return Err(StackError::InvalidBranchName);
            },
        };
        let result = branch.clone();
        match self.push_stack(Some(prefix), current, branch) {
            Ok(()) => Ok(result),
            Err(_) => Err(StackError::AlreadyTracked),
        }
    }

    /// Stacks the branch `prefix/name` on the stack that holds `current`,
    /// with that stack's prefix (none reads as empty); returns the branch's
    /// name.
    pub fn add_to_stack(&mut self, current: &String, name: &String) -> (r: Result<String, StackError>)
        requires
            old(self).wf(),
        ensures
            final(self).wf(),
            spec_resolve(old(self)@, current@) is None ==> r == Err::<String, StackError>(
                StackError::NotInStack,
            ) && final(self)@ == old(self)@,
            match spec_resolve(old(self)@, current@) {
                Some(p) => {
                    let b = branch_name_of(shown_prefix(old(self)@[p.0].prefix), name@);
                    &&& !valid_ref_name(b) ==> r == Err::<String, StackError>(
                        StackError::InvalidBranchName,
                    ) && final(self)@ == old(self)@
                    &&& valid_ref_name(b) && is_tracked(old(self)@, b) ==> r == Err::<
                        String,
                        StackError,
                    >(StackError::AlreadyTracked) && final(self)@ == old(self)@
                    &&& valid_ref_name(b) && !is_tracked(old(self)@, b) ==> (r matches Ok(x) && x@
                        == b) && final(self)@ == old(self)@.update(p.0, stacked(old(self)@[p.0], b))
                },
                None => true,
            },
    {
        let s = match self.resolve(current) {
            Some(p) => p.0,
            None => {
                return Err(StackError::NotInStack);
            },
        };
        let prefix = match &self.stacks[s].prefix {
            Some(p) => p.clone(),
            None => String::new(),
        };
        let branch = match get_branch_name(&prefix, name) {
            Ok(b) => b,
            Err(_) => {
                return Err(StackError::InvalidBranchName);
            },
        };
        let result = branch.clone();
        match self.add_branch(current, branch) {
            Ok(()) => Ok(result),
            Err(StateError::NotInStack) => Err(StackError::NotInStack),
            Err(StateError::AlreadyTracked) => Err(StackError::AlreadyTracked),
        }
    }
}

} // verus!
