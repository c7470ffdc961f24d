//! The command lines of the infrastructure tools (Terraform and OpenTofu):
//! the working directory, the arguments of each step and the credentials
//! profile.

use vstd::prelude::*;
use vstd::string::*;
use crate::text::owned;
use crate::database::opt_view;
use crate::migration::views;

verus! {

/// A step of the infrastructure tool.
#[derive(Debug, Clone)]
pub enum IacStep {
    /// Initialize the working directory.
    Init,
    /// Plan changes.
    Plan,
    /// Apply changes, optionally without confirmation.
    Apply { auto_approve: bool },
    /// Destroy the infrastructure, optionally without confirmation.
    Destroy { auto_approve: bool },
    /// Print the outputs as JSON, or one named output.
    Output { name: Option<String> },
}

/// A command line of the infrastructure tool.
#[derive(Debug, Clone)]
pub struct IacCommand {
    /// The working directory.
    pub dir: String,
    /// The arguments after the tool's name.
    pub args: Vec<String>,
    /// The credentials profile to run under (`AWS_PROFILE`), if any.
    pub aws_profile: Option<String>,
}

/// The working directory: the given one, or `infra`.
pub open spec fn iac_dir(dir: Option<Seq<char>>) -> Seq<char> {
    match dir {
        Some(d) => d,
        None => "infra"@,
    }
}

/// The arguments of a step.
pub open spec fn step_args(step: IacStep) -> Seq<Seq<char>> {
    match step {
        IacStep::Init => seq!["init"@],
        IacStep::Plan => seq!["plan"@],
        IacStep::Apply { auto_approve } => if auto_approve {
            seq!["apply"@, "-auto-approve"@]
        } else {
            seq!["apply"@]
        },
        IacStep::Destroy { auto_approve } => if auto_approve {
            seq!["destroy"@, "-auto-approve"@]
        } else {
            seq!["destroy"@]
        },
        IacStep::Output { name } => match name {
            Some(n) => seq!["output"@, "-json"@, n@],
            None => seq!["output"@, "-json"@],
        },
    }
}

/// The command line of `step`: `-chdir=<dir>` (the directory defaulting to
/// `infra`), then the step's arguments; the profile is passed on as given.
pub fn iac_command(dir: Option<String>, profile: Option<String>, step: IacStep) -> (r: IacCommand)
    ensures
        r.dir@ == iac_dir(opt_view(dir)),
        views(r.args@) == seq!["-chdir="@ + iac_dir(opt_view(dir))] + step_args(step),
        r.aws_profile == profile,
        (step is Apply || step is Destroy) ==> (views(r.args@).contains("-auto-approve"@) <==> (
        step matches IacStep::Apply { auto_approve: true } || step matches IacStep::Destroy {
            auto_approve: true,
        })),
{
    let d = match dir {
        Some(d) => d,
        None => owned("infra"),
    };
    let mut chdir = owned("-chdir=");
    chdir.append(d.as_str());
    let mut args: Vec<String> = Vec::new();
    args.push(chdir);
    match step {
        IacStep::Init => {
            args.push(owned("init"));
        },
        IacStep::Plan => {
            args.push(owned("plan"));
        },
        IacStep::Apply { auto_approve } => {
            args.push(owned("apply"));
            if auto_approve {
                args.push(owned("-auto-approve"));
            }
        },
        IacStep::Destroy { auto_approve } => {
            args.push(owned("destroy"));
            if auto_approve {
                args.push(owned("-auto-approve"));
            }
        },
        IacStep::Output { name } => {
            args.push(owned("output"));
            args.push(owned("-json"));
            match name {
                Some(n) => {
                    args.push(n);
                },
                None => {},
            }
        },
    }
    assert(views(args@) =~= seq!["-chdir="@ + iac_dir(opt_view(dir))] + step_args(step));
    proof {
        if step is Apply || step is Destroy {
            lemma_auto_approve_exactly_when_asked(opt_view(dir), step);
        }
    }
    IacCommand { dir: d, args, aws_profile: profile }
}

/// An apply or destroy runs without confirmation exactly when it was asked
/// to: its command line holds `-auto-approve` if and only if `auto_approve`
/// is set, whatever the directory.
pub proof fn lemma_auto_approve_exactly_when_asked(dir: Option<Seq<char>>, step: IacStep)
    requires
        step is Apply || step is Destroy,
    ensures
        (seq!["-chdir="@ + iac_dir(dir)] + step_args(step)).contains("-auto-approve"@) <==> (
        step matches IacStep::Apply { auto_approve: true } || step matches IacStep::Destroy {
            auto_approve: true,
        }),
{
    reveal_strlit("-chdir=");
    reveal_strlit("-auto-approve");
    reveal_strlit("apply");
    reveal_strlit("destroy");
    let args = seq!["-chdir="@ + iac_dir(dir)] + step_args(step);
    let flag = "-auto-approve"@;
    assert(args[0] != flag) by {
        assert(args[0][1] == 'c');
        assert(flag[1] == 'a');
    }
    assert(args[1] != flag) by {
        assert(args[1][0] != '-');
    }
    if step matches IacStep::Apply { auto_approve: true } || step matches IacStep::Destroy {
        auto_approve: true,
    } {
        assert(args[2] == flag);
    } else {
        assert(args.len() == 2);
        if args.contains(flag) {
            let i = choose|i: int| 0 <= i < args.len() && args[i] == flag;
            assert(i == 0 || i == 1);
        }
    }
}

} // verus!
