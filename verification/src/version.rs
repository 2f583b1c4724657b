//! The version of a mod that is a working copy of a repository: its branch
//! and the date of its last commit.

use vstd::prelude::*;
use crate::model::{LocalVersion, LocalVersionView};
use crate::text::{split, split_on};

verus! {

/// The text that `chrono` prints for the UTC time `secs` seconds after the
/// epoch, or `None` where `chrono` has no such time.
pub uninterp spec fn timestamp_text(secs: int) -> Option<Seq<char>>;

/// `chrono::DateTime::<Utc>::from_timestamp` with no nanoseconds, then the
/// time's `Display`. The text is a function of the seconds alone; seconds
/// out of `chrono`'s range give `None`.
#[verifier::external_body]
fn utc_text(secs: i64) -> (r: Option<String>)
    ensures
        r.deep_view() == timestamp_text(secs as int),
{
    chrono::DateTime::<chrono::Utc>::from_timestamp(secs, 0).map(|t| t.to_string())
}

/// The short name of the branch that the reference `ref_name` names: what
/// follows its last `/`.
pub open spec fn branch_of(ref_name: Seq<char>) -> Seq<char> {
    split_on(ref_name, '/').last()
}

/// The short name of the branch that `ref_name` names.
pub fn branch_name(ref_name: &str) -> (r: String)
    ensures
        r@ == branch_of(ref_name@),
{
    let parts = split(ref_name, '/');
    parts[parts.len() - 1].clone()
}

/// What a `RepoProbe` stands for.
pub struct RepoProbeView {
    pub head_name: Option<Seq<char>>,
    pub commit_seconds: Option<int>,
}

/// What was read of a mod directory that opened as a repository with a
/// head: the name of the head reference, if it is text, and the time of the
/// commit that the head points to, if it could be read.
#[derive(Debug)]
pub struct RepoProbe {
    pub head_name: Option<String>,
    pub commit_seconds: Option<i64>,
}

impl View for RepoProbe {
    type V = RepoProbeView;

    open spec fn view(&self) -> RepoProbeView {
        RepoProbeView {
            head_name: self.head_name.deep_view(),
            commit_seconds: match self.commit_seconds {
                Some(s) => Some(s as int),
                None => None,
            },
        }
    }
}

impl DeepView for RepoProbe {
    type V = RepoProbeView;

    open spec fn deep_view(&self) -> RepoProbeView {
        self@
    }
}

impl Clone for RepoProbe {
    fn clone(&self) -> (r: Self)
        ensures
            r@ == self@,
    {
        RepoProbe {
            head_name: crate::model::clone_text(&self.head_name),
            commit_seconds: self.commit_seconds,
        }
    }
}

/// The version that a head name and the text of a commit date give. Any
/// part that is missing leaves no version.
pub open spec fn version_from(head_name: Option<Seq<char>>, date: Option<Seq<char>>) -> Option<
    LocalVersionView,
> {
    match (head_name, date) {
        (Some(name), Some(text)) => Some(
            LocalVersionView { branch_name: branch_of(name), last_commit_date: text },
        ),
        _ => None,
    }
}

/// The version of a mod directory, `probe` being what was read of it:
/// `None` where it is no repository, or where its head is incomplete.
pub open spec fn version_of(probe: Option<RepoProbeView>) -> Option<LocalVersionView> {
    match probe {
        Some(p) => match p.commit_seconds {
            Some(secs) => version_from(p.head_name, timestamp_text(secs)),
            None => None,
        },
        None => None,
    }
}

impl LocalVersion {
    /// The version that a head name and the text of a commit date give.
    pub fn from_head(head_name: &Option<String>, date: Option<String>) -> (r: Option<LocalVersion>)
        ensures
            r.deep_view() == version_from(head_name.deep_view(), date.deep_view()),
    {
        match (head_name, date) {
            (Some(name), Some(text)) => Some(
                LocalVersion { branch_name: branch_name(name.as_str()), last_commit_date: text },
            ),
            _ => None,
        }
    }

    /// The version of a mod directory, `probe` being what was read of it.
    pub fn probe(probe: &Option<RepoProbe>) -> (r: Option<LocalVersion>)
        ensures
            r.deep_view() == version_of(probe.deep_view()),
    {
        match probe {
            Some(p) => match p.commit_seconds {
                Some(secs) => LocalVersion::from_head(&p.head_name, utc_text(secs)),
                None => None,
            },
            None => None,
        }
    }
}

} // verus!
