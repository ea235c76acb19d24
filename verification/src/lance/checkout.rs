//! Which version of a dataset is read.
use vstd::prelude::*;

use crate::cli::LanceArgs;
use crate::dataset::MAIN_BRANCH;
use crate::error::Error;
use crate::text::same_text;

verus! {

/// One step of the way to the version that is read.
#[derive(Debug)]
pub enum Step {
    /// Find the branch of the first, a tag, and hold it against the second.
    CheckTag(String, String),
    /// Go to a tag: its branch and its version.
    Tag(String),
    /// Go to the latest version of a branch.
    Branch(String),
    /// Go to a version of the branch.
    Version(u64),
    /// Go to the latest version of the branch that is no later than an instant.
    AsOf(String),
}

/// The steps that selectors ask for. A tag fixes both branch and version, so a branch
/// beside it is only held against the tag's; without a tag, the version is one of the
/// branch's.
pub open spec fn steps(args: Option<LanceArgs>) -> Seq<Step> {
    match args {
        None => Seq::empty(),
        Some(a) => match a.tag {
            Some(tag) => match a.branch {
                Some(branch) => seq![Step::CheckTag(tag, branch), Step::Tag(tag)],
                None => seq![Step::Tag(tag)],
            },
            None => {
                let on_branch = match a.branch {
                    Some(branch) => seq![Step::Branch(branch)],
                    None => Seq::empty(),
                };
                match (a.version, a.as_of) {
                    (Some(version), _) => on_branch.push(Step::Version(version)),
                    (None, Some(raw)) => on_branch.push(Step::AsOf(raw)),
                    (None, None) => on_branch,
                }
            },
        },
    }
}

/// A copied option of a reference.
pub open spec fn args_of(args: Option<&LanceArgs>) -> Option<LanceArgs> {
    match args {
        Some(a) => Some(*a),
        None => None,
    }
}

/// The steps that selectors ask for, in order.
pub fn checkout_steps(args: Option<&LanceArgs>) -> (r: Vec<Step>)
    ensures
        r@ == steps(args_of(args)),
{
    let mut out: Vec<Step> = Vec::new();
    let a = match args {
        Some(a) => a,
        None => return out,
    };
    match &a.tag {
        Some(tag) => {
            match &a.branch {
                Some(branch) => {
                    out.push(Step::CheckTag(tag.clone(), branch.clone()));
                },
                None => {},
            }
            out.push(Step::Tag(tag.clone()));
        },
        None => {
            match &a.branch {
                Some(branch) => {
                    out.push(Step::Branch(branch.clone()));
                },
                None => {},
            }
            match a.version {
                Some(version) => {
                    out.push(Step::Version(version));
                },
                None => match &a.as_of {
                    Some(raw) => {
                        out.push(Step::AsOf(raw.clone()));
                    },
                    None => {},
                },
            }
        },
    }
    proof {
        assert(out@ =~= steps(args_of(args)));
    }
    out
}

/// The branch that a stored name stands for: none is the default branch.
pub open spec fn branch_or_main(branch: Option<&str>) -> Seq<char> {
    match branch {
        Some(b) => b@,
        None => MAIN_BRANCH@,
    }
}

/// A tag must lie on the branch that is asked for beside it.
pub fn check_tag_branch(tag: &str, tag_branch: Option<&str>, requested: &str) -> (r: Result<
    (),
    Error,
>)
    ensures
        branch_or_main(tag_branch) == requested@ ==> r is Ok,
        branch_or_main(tag_branch) != requested@ ==> (r matches Err(
            Error::TagBranchMismatch { tag: t, tag_branch: b, requested_branch: q },
        ) && t@ == tag@ && b@ == branch_or_main(tag_branch) && q@ == requested@),
{
    let on = match tag_branch {
        Some(b) => b,
        None => MAIN_BRANCH,
    };
    if same_text(on, requested) {
        Ok(())
    } else {
        Err(
            Error::TagBranchMismatch {
                tag: tag.to_owned(),
                tag_branch: on.to_owned(),
                requested_branch: requested.to_owned(),
            },
        )
    }
}

/// Without selectors the dataset is read as it was opened: the latest version of the
/// default branch.
pub proof fn law_no_selectors_no_steps(args: LanceArgs)
    requires
        args.branch is None,
        args.version is None,
        args.tag is None,
        args.as_of is None,
    ensures
        steps(Some(args)) == Seq::<Step>::empty(),
        steps(None) == Seq::<Step>::empty(),
{
}

} // verus!
