use vstd::prelude::*;
use vstd::string::*;
use crate::naming::{decimal, decimal_of, last_segment, last_segment_of};
use crate::state::{names_of, GitStack};
use crate::sync::onto_of;

verus! {

/// A pull request of the hosting provider, as far as the engine reads it. Its
/// head commit is what ties it to a branch: a branch may be renamed or
/// rewritten while its pull request keeps its number.
pub struct PullRequestInfo {
    pub number: u64,
    pub head_sha: String,
    pub body: Option<String>,
}

/// The head commits of `pulls`, in order.
pub open spec fn heads_of(pulls: Seq<PullRequestInfo>) -> Seq<Seq<char>> {
    pulls.map_values(|p: PullRequestInfo| p.head_sha@)
}

/// The first index of `v` that holds `x`, if any.
pub open spec fn first_index(v: Seq<Seq<char>>, x: Seq<char>) -> Option<int> {
    if exists|k: int| 0 <= k < v.len() && v[k] == x {
        Some(choose|k: int| 0 <= k < v.len() && v[k] == x && forall|j: int| 0 <= j < k ==> v[j] != x)
    } else {
        None
    }
}

proof fn lemma_first_index(v: Seq<Seq<char>>, x: Seq<char>, k: int)
    requires
        0 <= k < v.len(),
        v[k] == x,
        forall|j: int| 0 <= j < k ==> v[j] != x,
    ensures
        first_index(v, x) == Some(k),
{
    let c = choose|c: int| 0 <= c < v.len() && v[c] == x && forall|j: int| 0 <= j < c ==> v[j] != x;
    assert(0 <= c < v.len() && v[c] == x && forall|j: int| 0 <= j < c ==> v[j] != x);
    if c < k {
        assert(v[c] != x);
    }
    if k < c {
        assert(v[k] != x);
    }
}

/// The first index of `v` that holds `x`.
fn find_first(v: &Vec<String>, x: &String) -> (r: Option<usize>)
    ensures
        r matches Some(k) ==> first_index(names_of(v@), x@) == Some(k as int),
        r is None ==> first_index(names_of(v@), x@) is None,
{
    let mut i: usize = 0;
    while i < v.len()
        invariant
            i <= v.len(),
            forall|j: int| 0 <= j < i ==> v@[j]@ != x@,
        decreases v.len() - i,
    {
        if v[i] == *x {
            proof {
                lemma_first_index(names_of(v@), x@, i as int);
            }
            return Some(i);
        }
        i = i + 1;
    }
    None
}

/// The open pull request whose head commit is `head`, the tip of a branch:
/// the index of the first one in `pulls`, if any.
pub fn get_branch_pr(pulls: &Vec<PullRequestInfo>, head: &String) -> (r: Option<usize>)
    ensures
        r matches Some(k) ==> first_index(heads_of(pulls@), head@) == Some(k as int),
        r is None ==> first_index(heads_of(pulls@), head@) is None,
{
    let mut i: usize = 0;
    while i < pulls.len()
        invariant
            i <= pulls.len(),
            forall|j: int| 0 <= j < i ==> pulls@[j].head_sha@ != head@,
        decreases pulls.len() - i,
    {
        if pulls[i].head_sha == *head {
            proof {
                lemma_first_index(heads_of(pulls@), head@, i as int);
            }
            return Some(i);
        }
        i = i + 1;
    }
    None
}

/// The branch of a stack that a pull request stands for: the index of the
/// first of `heads`, the branches' tips, that is the request's head commit.
pub fn get_pr_branch(heads: &Vec<String>, pr_head: &String) -> (r: Option<usize>)
    ensures
        r matches Some(k) ==> first_index(names_of(heads@), pr_head@) == Some(k as int),
        r is None ==> first_index(names_of(heads@), pr_head@) is None,
{
    find_first(heads, pr_head)
}

/// The pull requests of a stack's branches, bottom first: for each tip in
/// `heads` that some open pull request has as its head, that request, listed
/// once, at the first branch whose tip it has.
pub open spec fn stack_pulls_of(pr_heads: Seq<Seq<char>>, heads: Seq<Seq<char>>) -> Seq<int>
    decreases heads.len(),
{
    if heads.len() == 0 {
        Seq::empty()
    } else {
        let r = stack_pulls_of(pr_heads, heads.drop_last());
        match first_index(pr_heads, heads.last()) {
            Some(k) => if r.contains(k) {
                r
            } else {
                r.push(k)
            },
            None => r,
        }
    }
}

/// No pull request is listed twice for a stack.
pub proof fn lemma_stack_pulls_distinct(pr_heads: Seq<Seq<char>>, heads: Seq<Seq<char>>)
    ensures
        stack_pulls_of(pr_heads, heads).no_duplicates(),
    decreases heads.len(),
{
    if heads.len() > 0 {
        lemma_stack_pulls_distinct(pr_heads, heads.drop_last());
        let r = stack_pulls_of(pr_heads, heads.drop_last());
        if let Some(k) = first_index(pr_heads, heads.last()) {
            if !r.contains(k) {
                let r2 = r.push(k);
                assert forall|i: int, j: int| 0 <= i < r2.len() && 0 <= j < r2.len() && i != j
                    implies r2[i] != r2[j] by {
                    if i == r.len() && j < r.len() {
                        assert(r[j] != k);
                    } else if j == r.len() && i < r.len() {
                        assert(r[i] != k);
                    }
                }
            }
        }
    }
}

/// Whether `k` is in `v`.
fn holds_index(v: &Vec<usize>, k: usize) -> (b: bool)
    ensures
        b == v@.map_values(|x: usize| x as int).contains(k as int),
{
    let mut i: usize = 0;
    while i < v.len()
        invariant
            i <= v.len(),
            forall|j: int| 0 <= j < i ==> v@[j] != k,
        decreases v.len() - i,
    {
        if v[i] == k {
            assert(v@.map_values(|x: usize| x as int)[i as int] == k as int);
            return true;
        }
        i = i + 1;
    }
    proof {
        if v@.map_values(|x: usize| x as int).contains(k as int) {
            let m = v@.map_values(|x: usize| x as int);
            let j = choose|j: int| 0 <= j < m.len() && #[trigger] m[j] == k as int;
            assert(v@[j] != k);
        }
    }
    false
}

/// Adds the pull request of the branch at index `i` to `r`, the list for the
/// branches below it; returns that request and whether a lower branch had it.
fn add_stack_pull(pulls: &Vec<PullRequestInfo>, heads: &Vec<String>, i: usize, r: &mut Vec<usize>) -> (res: Option<(usize, bool)>)
    requires
        i < heads.len(),
        old(r)@.map_values(|k: usize| k as int) == stack_pulls_of(
            heads_of(pulls@),
            names_of(heads@).subrange(0, i as int),
        ),
    ensures
        final(r)@.map_values(|k: usize| k as int) == stack_pulls_of(
            heads_of(pulls@),
            names_of(heads@).subrange(0, i + 1),
        ),
        match first_index(heads_of(pulls@), heads@[i as int]@) {
            Some(k) => res == Some((k as usize, old(r)@.map_values(|x: usize| x as int).contains(k))),
            None => res is None,
        },
{
    let ghost prev = r@;
    assert(names_of(heads@).subrange(0, i + 1).drop_last() =~= names_of(heads@).subrange(
        0,
        i as int,
    ));
    assert(names_of(heads@).subrange(0, i + 1).last() == heads@[i as int]@);
    match get_branch_pr(pulls, &heads[i]) {
        Some(k) => {
            let seen = holds_index(r, k);
            if !seen {
                r.push(k);
                assert(r@.map_values(|k: usize| k as int) =~= prev.map_values(|k: usize| k as int).push(
                    k as int,
                ));
            }
            Some((k, seen))
        },
        None => None,
    }
}

/// The indices in `pulls` of the pull requests of a stack whose branch tips
/// are `heads`, bottom first, each listed once.
pub fn get_pull_requests(pulls: &Vec<PullRequestInfo>, heads: &Vec<String>) -> (r: Vec<usize>)
    ensures
        r@.map_values(|k: usize| k as int) == stack_pulls_of(heads_of(pulls@), names_of(heads@)),
        r@.no_duplicates(),
{
    let mut r: Vec<usize> = Vec::new();
    let mut i: usize = 0;
    while i < heads.len()
        invariant
            i <= heads.len(),
            r@.map_values(|k: usize| k as int) == stack_pulls_of(
                heads_of(pulls@),
                names_of(heads@).subrange(0, i as int),
            ),
        decreases heads.len() - i,
    {
        add_stack_pull(pulls, heads, i, &mut r);
        i = i + 1;
    }
    assert(names_of(heads@).subrange(0, heads@.len() as int) =~= names_of(heads@));
    proof {
        lemma_stack_pulls_distinct(heads_of(pulls@), names_of(heads@));
        let m = r@.map_values(|k: usize| k as int);
        assert forall|i: int, j: int| 0 <= i < r@.len() && 0 <= j < r@.len() && i != j implies r@[i]
            != r@[j] by {
            assert(m[i] != m[j]);
        }
    }
    r
}

/// Distinct branch tips never share a pull request, each tip has one pull
/// request at most, and which one depends on the tip alone, not on the
/// branch's name: a renamed branch with the same tip keeps its request.
pub proof fn lemma_match_by_commit(pulls: Seq<PullRequestInfo>, h1: Seq<char>, h2: Seq<char>)
    ensures
        h1 != h2 ==> match (first_index(heads_of(pulls), h1), first_index(heads_of(pulls), h2)) {
            (Some(k1), Some(k2)) => k1 != k2,
            _ => true,
        },
        first_index(heads_of(pulls), h1) matches Some(k) ==> 0 <= k < pulls.len()
            && pulls[k].head_sha@ == h1,
        h1 == h2 ==> first_index(heads_of(pulls), h1) == first_index(heads_of(pulls), h2),
{
    let v = heads_of(pulls);
    if first_index(v, h1) is Some {
        let k = choose|k: int| 0 <= k < v.len() && v[k] == h1 && forall|j: int| 0 <= j < k ==> v[j] != h1;
        let w = choose|k: int| 0 <= k < v.len() && v[k] == h1;
        assert(0 <= w < v.len() && v[w] == h1);
        assert(exists|k: int| 0 <= k < v.len() && v[k] == h1 && forall|j: int| 0 <= j < k ==> v[j] != h1) by {
            lemma_some_first(v, h1, w);
        }
    }
    if first_index(v, h2) is Some {
        let w = choose|k: int| 0 <= k < v.len() && v[k] == h2;
        assert(0 <= w < v.len() && v[w] == h2);
        assert(exists|k: int| 0 <= k < v.len() && v[k] == h2 && forall|j: int| 0 <= j < k ==> v[j] != h2) by {
            lemma_some_first(v, h2, w);
        }
    }
}

/// Where `x` occurs in `v`, a first occurrence exists.
proof fn lemma_some_first(v: Seq<Seq<char>>, x: Seq<char>, w: int)
    requires
        0 <= w < v.len(),
        v[w] == x,
    ensures
        exists|k: int| 0 <= k < v.len() && v[k] == x && forall|j: int| 0 <= j < k ==> v[j] != x,
    decreases w,
{
    if exists|j: int| 0 <= j < w && v[j] == x {
        let j = choose|j: int| 0 <= j < w && v[j] == x;
        lemma_some_first(v, x, j);
    } else {
        assert(forall|j: int| 0 <= j < w ==> v[j] != x);
    }
}

/// The title of the pull request of the branch at index `i`: the stack's
/// prefix, the index, and the last segment of the branch's name.
pub open spec fn pr_title_of(prefix: Seq<char>, i: nat, branch: Seq<char>) -> Seq<char> {
    prefix + " (#"@ + decimal_of(i) + ") - "@ + last_segment(branch)
}

pub open spec fn prefix_or_empty(prefix: Option<Seq<char>>) -> Seq<char> {
    match prefix {
        Some(p) => p,
        None => Seq::empty(),
    }
}

/// The title of the pull request of the branch at index `i` of a stack with
/// `prefix` (none reads as empty).
pub fn pr_title(prefix: &Option<String>, i: usize, branch: &String) -> (r: String)
    ensures
        r@ == pr_title_of(prefix_or_empty(crate::state::opt_view(*prefix)), i as nat, branch@),
{
    let mut t = match prefix {
        Some(p) => p.clone(),
        None => String::new(),
    };
    t.append(" (#");
    let d = decimal(i as u64);
    t.append(d.as_str());
    t.append(") - ");
    let seg = last_segment_of(branch);
    t.append(seg.as_str());
    t
}

/// One step of opening the pull requests of a stack.
pub enum PrStep {
    /// The branch already has this open pull request (an index of the list).
    Existing { pull: usize },
    /// The branch's tip is the head of this open pull request, which a lower
    /// branch with the same tip already has: the branch brings no commits of
    /// its own, no request is opened for it, and the chain lists the request
    /// once.
    Shared { pull: usize },
    /// Open a pull request of `head` onto `base`.
    Create { title: String, head: String, base: String },
}

/// What step `s` at index `i` of the plan for stack `st` must be.
pub open spec fn plan_step_ok(
    st: crate::state::StackModel,
    pr_heads: Seq<Seq<char>>,
    heads: Seq<Seq<char>>,
    i: int,
    s: PrStep,
) -> bool {
    match first_index(pr_heads, heads[i]) {
        Some(k) => if stack_pulls_of(pr_heads, heads.subrange(0, i)).contains(k) {
            s == PrStep::Shared { pull: k as usize }
        } else {
            s == PrStep::Existing { pull: k as usize }
        },
        None => s matches PrStep::Create { title, head, base } && title@ == pr_title_of(
            prefix_or_empty(st.prefix),
            i as nat,
            st.branches[i],
        ) && head@ == st.branches[i] && base@ == onto_of(st, i),
    }
}

/// The plan to give every branch of `stack` a pull request, bottom first: a
/// branch whose tip (in `heads`) is the head of an open pull request keeps
/// it, unless a lower branch already has it; any other gets a new one onto
/// the branch below it, or onto the base.
pub fn creation_plan(stack: &GitStack, pulls: &Vec<PullRequestInfo>, heads: &Vec<String>) -> (r:
    Vec<PrStep>)
    requires
        heads.len() == stack.branches.len(),
    ensures
        r.len() == stack.branches.len(),
        forall|i: int|
            0 <= i < r.len() ==> plan_step_ok(
                stack@,
                heads_of(pulls@),
                names_of(heads@),
                i,
                #[trigger] r@[i],
            ),
{
    let mut r: Vec<PrStep> = Vec::new();
    let mut listed: Vec<usize> = Vec::new();
    let mut i: usize = 0;
    assert(names_of(heads@).subrange(0, 0) =~= Seq::<Seq<char>>::empty());
    assert(listed@.map_values(|k: usize| k as int) =~= Seq::<int>::empty());
    while i < stack.branches.len()
        invariant
            heads.len() == stack.branches.len(),
            i <= stack.branches.len(),
            r.len() == i,
            listed@.map_values(|k: usize| k as int) == stack_pulls_of(
                heads_of(pulls@),
                names_of(heads@).subrange(0, i as int),
            ),
            forall|j: int|
                0 <= j < i ==> plan_step_ok(
                    stack@,
                    heads_of(pulls@),
                    names_of(heads@),
                    j,
                    #[trigger] r@[j],
                ),
        decreases stack.branches.len() - i,
    {
        assert(names_of(heads@)[i as int] == heads@[i as int]@);
        let step = match add_stack_pull(pulls, heads, i, &mut listed) {
            Some((k, true)) => PrStep::Shared { pull: k },
            Some((k, false)) => PrStep::Existing { pull: k },
            None => {
                let base = if i == 0 {
                    stack.base_branch.clone()
                } else {
                    stack.branches[i - 1].clone()
                };
                PrStep::Create {
                    title: pr_title(&stack.prefix, i, &stack.branches[i]),
                    head: stack.branches[i].clone(),
                    base,
                }
            },
        };
        r.push(step);
        i = i + 1;
    }
    r
}

} // verus!
