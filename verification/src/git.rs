//! Decisions about the repository of a mod: which branch to check out and
//! how, and which branches and tags a list of reference names holds. The
//! caller reads the repository and carries the decisions out.

use vstd::prelude::*;
use crate::text::{chars_of, concat, occurs_at, chars_occur_at, str_eq};
use crate::version::{branch_name, branch_of};

verus! {

/// What a `RepoState` stands for.
pub struct RepoStateView {
    pub open_error: Option<Seq<char>>,
    pub branches: Seq<Seq<char>>,
    pub head: Option<Seq<char>>,
}

/// What was read of a repository before a checkout.
#[derive(Debug)]
pub struct RepoState {
    /// Why the directory did not open as a repository, if it did not.
    pub open_error: Option<String>,
    /// The names of the local branches.
    pub branches: Vec<String>,
    /// The name of the reference that the head points to, if there is one.
    pub head: Option<String>,
}

impl View for RepoState {
    type V = RepoStateView;

    open spec fn view(&self) -> RepoStateView {
        RepoStateView {
            open_error: self.open_error.deep_view(),
            branches: self.branches.deep_view(),
            head: self.head.deep_view(),
        }
    }
}

impl DeepView for RepoState {
    type V = RepoStateView;

    open spec fn deep_view(&self) -> RepoStateView {
        self@
    }
}

/// What a `CheckoutPlan` stands for.
pub enum CheckoutPlanView {
    Switch(Seq<char>),
    CreateAndSwitch(Seq<char>, Seq<char>),
}

/// How to check a branch out. After either step the working copy is reset
/// hard to the new head.
#[derive(Debug, PartialEq, Eq)]
pub enum CheckoutPlan {
    /// Point the head at this local branch.
    Switch(String),
    /// Create the first branch from the second, then point the head at it.
    CreateAndSwitch(String, String),
}

impl View for CheckoutPlan {
    type V = CheckoutPlanView;

    open spec fn view(&self) -> CheckoutPlanView {
        match self {
            CheckoutPlan::Switch(b) => CheckoutPlanView::Switch(b@),
            CheckoutPlan::CreateAndSwitch(b, base) => CheckoutPlanView::CreateAndSwitch(b@, base@),
        }
    }
}

impl CheckoutPlan {
    /// Whether the plan creates the branch.
    pub fn creates(&self) -> (r: bool)
        ensures
            r == (self@ is CreateAndSwitch),
    {
        match self {
            CheckoutPlan::Switch(_) => false,
            CheckoutPlan::CreateAndSwitch(_, _) => true,
        }
    }
}

/// What a checkout decides, or the message of its failure.
pub open spec fn checkout_of(repo: RepoStateView, branch: Seq<char>, create_if_unexist: bool) -> Result<
    CheckoutPlanView,
    Seq<char>,
> {
    if repo.branches.contains(branch) {
        Ok(CheckoutPlanView::Switch(branch))
    } else if create_if_unexist && repo.head is Some {
        Ok(CheckoutPlanView::CreateAndSwitch(branch, branch_of(repo.head->0)))
    } else if create_if_unexist {
        Err("No current branch to create the branch from"@)
    } else {
        Err("Did not find branch that name to checkout"@)
    }
}

/// Whether `r` is the result `expected`, plan and message by their views.
pub open spec fn is_checkout(r: Result<CheckoutPlan, String>, expected: Result<
    CheckoutPlanView,
    Seq<char>,
>) -> bool {
    match r {
        Ok(plan) => expected == Ok::<CheckoutPlanView, Seq<char>>(plan@),
        Err(message) => expected == Err::<CheckoutPlanView, Seq<char>>(message@),
    }
}

/// Whether `list` holds `item`.
pub fn list_contains(list: &Vec<String>, item: &str) -> (r: bool)
    ensures
        r == list.deep_view().contains(item@),
{
    let mut i: usize = 0;
    while i < list.len()
        invariant
            i <= list.len(),
            forall|j: int| 0 <= j < i ==> list.deep_view()[j] != item@,
        decreases list.len() - i,
    {
        if str_eq(list[i].as_str(), item) {
            proof {
                assert(list.deep_view()[i as int] == item@);
            }
            return true;
        }
        i += 1;
    }
    false
}

/// Decides how to check out `branch_name`: a local branch of that name is
/// switched to; where there is none, it is created from the current branch
/// if `create_if_unexist` is set, and the checkout fails if it is not.
pub fn checkout(repo: &RepoState, branch: &str, create_if_unexist: bool) -> (r: Result<
    CheckoutPlan,
    String,
>)
    ensures
        is_checkout(r, checkout_of(repo@, branch@, create_if_unexist)),
{
    if list_contains(&repo.branches, branch) {
        return Ok(CheckoutPlan::Switch(branch.to_owned()));
    }
    if create_if_unexist {
        match &repo.head {
            Some(head) => Ok(
                CheckoutPlan::CreateAndSwitch(branch.to_owned(), branch_name(head.as_str())),
            ),
            None => Err("No current branch to create the branch from".to_owned()),
        }
    } else {
        Err("Did not find branch that name to checkout".to_owned())
    }
}

/// The message for a directory that did not open as a repository.
pub open spec fn open_failure(target_dir: Seq<char>, error: Seq<char>) -> Seq<char> {
    "Failed to open repository at "@ + target_dir + ": Failed to open repository: "@ + error
}

/// What `try_checkout_to` decides, or the message of its failure.
pub open spec fn try_checkout_of(
    target_dir: Seq<char>,
    repo: RepoStateView,
    branch: Seq<char>,
    create_if_unexist: bool,
) -> Result<CheckoutPlanView, Seq<char>> {
    match repo.open_error {
        Some(error) => Err(open_failure(target_dir, error)),
        None => checkout_of(repo, branch, create_if_unexist),
    }
}

/// Decides how to bring the working copy at `target_dir` to
/// `target_branch`. Fails where the directory did not open as a
/// repository, and where `checkout` fails.
pub fn try_checkout_to(
    target_dir: &str,
    target_branch: &str,
    create_if_unexist: bool,
    repo: &RepoState,
) -> (r: Result<CheckoutPlan, String>)
    ensures
        is_checkout(r, try_checkout_of(target_dir@, repo@, target_branch@, create_if_unexist)),
{
    match &repo.open_error {
        Some(error) => {
            let a = concat("Failed to open repository at ", target_dir);
            let b = concat(a.as_str(), ": Failed to open repository: ");
            Err(concat(b.as_str(), error.as_str()))
        },
        None => checkout(repo, target_branch, create_if_unexist),
    }
}

/// The short names of the branches that `names` name, each once, in the
/// order in which they first occur. `HEAD` is no branch.
pub open spec fn short_names(names: Seq<Seq<char>>) -> Seq<Seq<char>>
    decreases names.len(),
{
    if names.len() == 0 {
        Seq::empty()
    } else {
        let rest = short_names(names.drop_last());
        let b = branch_of(names.last());
        if b == "HEAD"@ || rest.contains(b) {
            rest
        } else {
            rest.push(b)
        }
    }
}

/// The short names of the branches that `names` name, each once.
pub fn list_branches(names: &Vec<String>) -> (r: Vec<String>)
    ensures
        r.deep_view() == short_names(names.deep_view()),
{
    let mut r: Vec<String> = Vec::new();
    let ghost all = names.deep_view();
    proof {
        assert(r.deep_view() =~= Seq::<Seq<char>>::empty());
        assert(all.take(0) =~= Seq::<Seq<char>>::empty());
    }
    let mut i: usize = 0;
    while i < names.len()
        invariant
            i <= names.len(),
            all == names.deep_view(),
            r.deep_view() == short_names(all.take(i as int)),
        decreases names.len() - i,
    {
        let ghost before = r.deep_view();
        proof {
            let t = all.take(i as int + 1);
            assert(t.drop_last() =~= all.take(i as int));
            assert(t.last() == all[i as int]);
        }
        let b = branch_name(names[i].as_str());
        if !str_eq(b.as_str(), "HEAD") && !list_contains(&r, b.as_str()) {
            r.push(b);
            proof {
                assert(r.deep_view() =~= before.push(b@));
            }
        }
        i += 1;
    }
    proof {
        assert(all.take(i as int) =~= all);
    }
    r
}

/// `s` with every occurrence of `pattern` taken out, reading from the left.
/// An empty pattern takes nothing out.
pub open spec fn without_sub(s: Seq<char>, pattern: Seq<char>) -> Seq<char>
    decreases s.len(),
{
    if pattern.len() == 0 || s.len() == 0 {
        s
    } else if occurs_at(s, pattern, 0) {
        without_sub(s.skip(pattern.len() as int), pattern)
    } else {
        seq![s[0]] + without_sub(s.skip(1), pattern)
    }
}

/// `s` with every occurrence of `pattern` taken out.
pub fn remove_all(s: &str, pattern: &str) -> (r: String)
    ensures
        r@ == without_sub(s@, pattern@),
{
    let cs = chars_of(s);
    let ps = chars_of(pattern);
    if ps.len() == 0 {
        return s.to_owned();
    }
    let n = cs.len();
    let mut r = String::new();
    let mut i: usize = 0;
    proof {
        assert(s@.skip(0) =~= s@);
        assert(r@ + without_sub(s@, pattern@) =~= without_sub(s@, pattern@));
    }
    while i < n
        invariant
            i <= n,
            n == cs.len(),
            cs@ == s@,
            ps@ == pattern@,
            ps.len() > 0,
            r@ + without_sub(s@.skip(i as int), pattern@) == without_sub(s@, pattern@),
        decreases n - i,
    {
        let ghost rest = s@.skip(i as int);
        let ghost before = r@;
        let here = chars_occur_at(&cs, &ps, i);
        proof {
            assert(occurs_at(cs@, ps@, i as int) == occurs_at(rest, ps@, 0)) by {
                if i + ps.len() <= n {
                    assert(cs@.subrange(i as int, i + ps.len()) =~= rest.subrange(
                        0,
                        ps.len() as int,
                    ));
                }
            }
        }
        if here {
            proof {
                assert(rest.skip(ps.len() as int) =~= s@.skip(i + ps.len()));
            }
            i += ps.len();
        } else {
            let piece = s.substring_char(i, i + 1);
            r.append(piece);
            proof {
                assert(piece@ =~= seq![rest[0]]);
                assert(rest.skip(1) =~= s@.skip(i as int + 1));
                assert((before + seq![rest[0]]) + without_sub(s@.skip(i as int + 1), pattern@)
                    =~= before + (seq![rest[0]] + without_sub(rest.skip(1), pattern@)));
            }
            i += 1;
        }
    }
    proof {
        assert(s@.skip(n as int) =~= Seq::<char>::empty());
        assert(r@ + Seq::<char>::empty() =~= r@);
    }
    r
}

/// The name of the directory that a repository at `url` is cloned into:
/// what follows the last `/`, without `.git`.
pub open spec fn clone_name_of(url: Seq<char>) -> Seq<char> {
    without_sub(branch_of(url), ".git"@)
}

/// The name of the directory that a repository at `url` is cloned into.
pub fn clone_dir_name(url: &str) -> (r: String)
    ensures
        r@ == clone_name_of(url@),
{
    let last = branch_name(url);
    remove_all(last.as_str(), ".git")
}

/// The tag that the reference `name` names, if it names one: the name
/// without `refs/tags/` and without the mark `^{}` of a peeled tag.
pub open spec fn tag_of(name: Seq<char>) -> Option<Seq<char>> {
    if occurs_at(name, "refs/tags/"@, 0) {
        Some(without_sub(without_sub(name, "refs/tags/"@), "^{}"@))
    } else {
        None
    }
}

/// The tags that `names` name, each once, in the order in which they
/// first occur.
pub open spec fn tags_of(names: Seq<Seq<char>>) -> Seq<Seq<char>>
    decreases names.len(),
{
    if names.len() == 0 {
        Seq::empty()
    } else {
        let rest = tags_of(names.drop_last());
        match tag_of(names.last()) {
            Some(tag) => if rest.contains(tag) {
                rest
            } else {
                rest.push(tag)
            },
            None => rest,
        }
    }
}

/// The tags that the reference names `names` name, each once.
pub fn tag_names(names: &Vec<String>) -> (r: Vec<String>)
    ensures
        r.deep_view() == tags_of(names.deep_view()),
{
    let mut r: Vec<String> = Vec::new();
    let ghost all = names.deep_view();
    proof {
        assert(r.deep_view() =~= Seq::<Seq<char>>::empty());
        assert(all.take(0) =~= Seq::<Seq<char>>::empty());
    }
    let mut i: usize = 0;
    while i < names.len()
        invariant
            i <= names.len(),
            all == names.deep_view(),
            r.deep_view() == tags_of(all.take(i as int)),
        decreases names.len() - i,
    {
        let ghost before = r.deep_view();
        proof {
            let t = all.take(i as int + 1);
            assert(t.drop_last() =~= all.take(i as int));
            assert(t.last() == all[i as int]);
        }
        if crate::text::starts_with(names[i].as_str(), "refs/tags/") {
            let bare = remove_all(names[i].as_str(), "refs/tags/");
            let tag = remove_all(bare.as_str(), "^{}");
            if !list_contains(&r, tag.as_str()) {
                r.push(tag);
                proof {
                    assert(r.deep_view() =~= before.push(tag@));
                }
            }
        }
        i += 1;
    }
    proof {
        assert(all.take(i as int) =~= all);
    }
    r
}

} // verus!
