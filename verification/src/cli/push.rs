//! `push` subcommand: copy profile closures to their nodes without deploying them.
//!
//! Pushing a profile takes three steps, each done by running Nix: evaluate the
//! profile's derivation and output paths, build the derivation, and copy the
//! output's closure to the node.  The decisions between the steps stand here.

use vstd::prelude::*;

use crate::cli::ProfileOptionOverrides;
use crate::command::CmdErrorKind;
use crate::display::{
    get_max_width, groups_view, make_spaces, max_width, pad, padded, piece_views,
    push_piece, rows_view, spaces, string_views, table, table_text, Piece, Style, StyledText,
};
use crate::nix::{string_literal, to_string_literal};
use crate::profile::{nix_sshopts, ProfileInfo};
use crate::target::Target;

verus! {

/// `nix copy` all profile closures to their respective nodes without deploying them.
pub struct PushArgs {
    /// Push profiles to these targets only (all profiles when absent).
    pub targets: Option<Vec<Target>>,
    /// The flake to use as a source of profiles.
    pub flake: String,
    pub overrides: ProfileOptionOverrides,
}

/// Whether pushing a profile succeeded.
#[derive(Debug, Clone, Copy, PartialEq, Eq, Structural)]
pub enum Status {
    Success,
    Failure,
}

/// The derivation and output paths of an evaluated profile.
#[derive(Debug)]
pub struct EvalResult {
    pub drv: String,
    pub out: String,
}

/// Where pushing a profile stands.
#[derive(Debug)]
pub enum PushStep {
    /// Evaluate the profile's paths next.
    Evaluate,
    /// Build the derivation next, then copy the output.
    Build { drv: String, out: String },
    /// Copy the output's closure next.
    Copy { out: String },
    /// Done.
    Done(Status),
}

/// The outcome of a step's work, reported by whoever ran it.
pub enum PushOutcome {
    /// The evaluation gave paths, or failed.
    Evaluated(Option<EvalResult>),
    /// The build or the copy succeeded or failed.
    Finished(Status),
}

/// Steps as plain values.
pub enum PushStepView {
    Evaluate,
    Build(Seq<char>, Seq<char>),
    Copy(Seq<char>),
    Done(Status),
}

impl View for PushStep {
    type V = PushStepView;

    open spec fn view(&self) -> PushStepView {
        match self {
            PushStep::Evaluate => PushStepView::Evaluate,
            PushStep::Build { drv, out } => PushStepView::Build(drv@, out@),
            PushStep::Copy { out } => PushStepView::Copy(out@),
            PushStep::Done(s) => PushStepView::Done(*s),
        }
    }
}

/// The step after `step` once its work had `outcome`: a failed evaluation or
/// build ends in failure, and the copy's result is the push's result.  An outcome
/// that does not belong to the step leaves the step as it is.
pub open spec fn push_next(step: PushStepView, outcome: PushOutcome) -> PushStepView {
    match (step, outcome) {
        (PushStepView::Evaluate, PushOutcome::Evaluated(None)) => PushStepView::Done(Status::Failure),
        (PushStepView::Evaluate, PushOutcome::Evaluated(Some(e))) => PushStepView::Build(e.drv@, e.out@),
        (PushStepView::Build(_, _), PushOutcome::Finished(Status::Failure)) => PushStepView::Done(Status::Failure),
        (PushStepView::Build(_, out), PushOutcome::Finished(Status::Success)) => PushStepView::Copy(out),
        (PushStepView::Copy(_), PushOutcome::Finished(s)) => PushStepView::Done(s),
        (s, _) => s,
    }
}

/// The node names of the targets, in order.
pub open spec fn target_node_names(targets: Seq<Target>) -> Seq<Seq<char>> {
    targets.map_values(|t: Target| t.node@)
}

impl PushArgs {
    /// The nodes whose profiles are pushed: those that the targets name, or all
    /// nodes (`None`) when no targets are given.
    pub fn target_nodes(&self) -> (r: Option<Vec<String>>)
        ensures
            match self.targets {
                None => r is None,
                Some(ts) => r is Some && string_views(r->0@) == target_node_names(ts@),
            },
    {
        match &self.targets {
            None => None,
            Some(ts) => {
                let mut names: Vec<String> = Vec::new();
                let mut i: usize = 0;
                while i < ts.len()
                    invariant
                        i <= ts@.len(),
                        string_views(names@) == target_node_names(ts@).take(i as int),
                    decreases ts@.len() - i,
                {
                    let ghost before = names@;
                    names.push(ts[i].node.clone());
                    proof {
                        assert(string_views(names@) == string_views(before).push(ts@[i as int].node@));
                        assert(target_node_names(ts@).take(i + 1) == target_node_names(ts@).take(i as int).push(ts@[i as int].node@));
                    }
                    i = i + 1;
                }
                proof {
                    assert(target_node_names(ts@).take(i as int) == target_node_names(ts@));
                }
                Some(names)
            },
        }
    }
}

impl PushArgs {
    /// The first step of pushing a profile.
    pub fn push_profile_start() -> (r: PushStep)
        ensures
            r@ == PushStepView::Evaluate,
    {
        PushStep::Evaluate
    }

    /// The step that follows `step` once its work had `outcome`.
    pub fn push_profile(step: PushStep, outcome: PushOutcome) -> (r: PushStep)
        ensures
            r@ == push_next(step@, outcome),
    {
        match (step, outcome) {
            (PushStep::Evaluate, PushOutcome::Evaluated(None)) => PushStep::Done(Status::Failure),
            (PushStep::Evaluate, PushOutcome::Evaluated(Some(e))) => PushStep::Build { drv: e.drv, out: e.out },
            (PushStep::Build { .. }, PushOutcome::Finished(Status::Failure)) => PushStep::Done(Status::Failure),
            (PushStep::Build { out, .. }, PushOutcome::Finished(Status::Success)) => PushStep::Copy { out },
            (PushStep::Copy { .. }, PushOutcome::Finished(s)) => PushStep::Done(s),
            (s, _) => s,
        }
    }
}

/// The result of a build or copy step from how running Nix ended: success, or
/// failure when Nix exited unsuccessfully; `None` when Nix could not be run at
/// all, which ends the program.
pub open spec fn step_status_of(failure: Option<CmdErrorKind>) -> Option<Status> {
    match failure {
        None => Some(Status::Success),
        Some(k) => if k == CmdErrorKind::ExitCodeStatus || k == CmdErrorKind::ExitCodeOutput {
            Some(Status::Failure)
        } else {
            None
        },
    }
}

impl PushArgs {
    /// The result of a build or copy step (see `step_status_of`).
    pub fn step_status(failure: Option<CmdErrorKind>) -> (r: Option<Status>)
        ensures
            r == step_status_of(failure),
    {
        match failure {
            None => Some(Status::Success),
            Some(k) => if k.is_exit_code_error() {
                Some(Status::Failure)
            } else {
                None
            },
        }
    }
}

/// Pushing ends in success exactly when evaluation, build and copy all succeed.
pub proof fn law_push_succeeds_iff_all_steps_succeed(e: Option<EvalResult>, built: Status, copied: Status)
    ensures
        ({
            let s1 = push_next(PushStepView::Evaluate, PushOutcome::Evaluated(e));
            let s2 = push_next(s1, PushOutcome::Finished(built));
            let s3 = push_next(s2, PushOutcome::Finished(copied));
            &&& (e is None ==> s1 == PushStepView::Done(Status::Failure))
            &&& (e is Some && built == Status::Failure ==> s2 == PushStepView::Done(Status::Failure))
            &&& (e is Some && built == Status::Success ==> s3 == PushStepView::Done(copied))
            &&& (s3 == PushStepView::Done(Status::Success) <==> e is Some && built == Status::Success && copied == Status::Success)
        }),
{
}

// ---------------------------------------------------------------------------
// Commands
// ---------------------------------------------------------------------------

fn push_str(v: &mut Vec<String>, s: String)
    ensures
        string_views(final(v)@) == string_views(old(v)@).push(s@),
{
    let ghost before = v@;
    v.push(s);
    proof {
        assert(string_views(v@) == string_views(before).push(s@));
    }
}

/// The `--apply` expression that picks the profile's paths: the given Nix
/// function applied to the node's and the profile's names.
pub open spec fn eval_profile_apply(eval_fn: Seq<char>, p: ProfileInfo) -> Seq<char> {
    "("@ + eval_fn + ") { node = "@ + string_literal(p.node@) + "; profile = "@ + string_literal(p.profile@) + "; }"@
}

/// The arguments of `nix` that evaluate the profile's paths.
pub open spec fn eval_profile_args_of(flake: Seq<char>, eval_fn: Seq<char>, p: ProfileInfo) -> Seq<Seq<char>> {
    seq!["eval"@, "--json"@, "--apply"@, eval_profile_apply(eval_fn, p), "--"@, flake + "#.deploy"@]
}

/// The arguments of `nix` that build the derivation's outputs.
pub open spec fn build_profile_args_of(drv: Seq<char>) -> Seq<Seq<char>> {
    seq!["build"@, "--no-link"@, drv + "^*"@]
}

/// The arguments of `nix` that copy the closure of `out` to the profile's node.
pub open spec fn copy_profile_args_of(p: ProfileInfo, out: Seq<char>) -> Seq<Seq<char>> {
    seq!["copy"@] + (if !p.fast_connection {
        seq!["--substitute-on-destination"@]
    } else {
        Seq::empty()
    }) + seq!["--to"@, "ssh://"@ + p.ssh_user@ + "@"@ + p.hostname@, "--"@, out]
}

impl PushArgs {
    pub fn eval_profile_args(&self, profile: &ProfileInfo, eval_fn: &str) -> (r: Vec<String>)
        ensures
            string_views(r@) == eval_profile_args_of(self.flake@, eval_fn@, *profile),
    {
        let mut apply = String::from_str("(");
        apply.append(eval_fn);
        apply.append(") { node = ");
        let node = to_string_literal(profile.node.as_str());
        apply.append(node.as_str());
        apply.append("; profile = ");
        let prof = to_string_literal(profile.profile.as_str());
        apply.append(prof.as_str());
        apply.append("; }");
        let mut installable = self.flake.clone();
        installable.append("#.deploy");
        let mut args: Vec<String> = Vec::new();
        push_str(&mut args, String::from_str("eval"));
        push_str(&mut args, String::from_str("--json"));
        push_str(&mut args, String::from_str("--apply"));
        push_str(&mut args, apply);
        push_str(&mut args, String::from_str("--"));
        push_str(&mut args, installable);
        proof {
            assert(string_views(args@) == eval_profile_args_of(self.flake@, eval_fn@, *profile));
        }
        args
    }

    pub fn build_profile_args(&self, drv_path: &str) -> (r: Vec<String>)
        ensures
            string_views(r@) == build_profile_args_of(drv_path@),
    {
        let mut outputs = String::from_str(drv_path);
        outputs.append("^*");
        let mut args: Vec<String> = Vec::new();
        push_str(&mut args, String::from_str("build"));
        push_str(&mut args, String::from_str("--no-link"));
        push_str(&mut args, outputs);
        proof {
            assert(string_views(args@) == build_profile_args_of(drv_path@));
        }
        args
    }

    /// The arguments of `nix copy` and the value of `NIX_SSHOPTS` for it.
    pub fn copy_profile_args(&self, profile: &ProfileInfo, out_path: &str) -> (r: (Vec<String>, String))
        ensures
            string_views(r.0@) == copy_profile_args_of(*profile, out_path@),
            r.1@ == nix_sshopts(string_views(profile.ssh_opts@)),
    {
        let mut args: Vec<String> = Vec::new();
        push_str(&mut args, String::from_str("copy"));
        if !profile.fast_connection {
            push_str(&mut args, String::from_str("--substitute-on-destination"));
        }
        let mut dest = String::from_str("ssh://");
        dest.append(profile.ssh_user.as_str());
        dest.append("@");
        dest.append(profile.hostname.as_str());
        push_str(&mut args, String::from_str("--to"));
        push_str(&mut args, dest);
        push_str(&mut args, String::from_str("--"));
        push_str(&mut args, String::from_str(out_path));
        proof {
            assert(string_views(args@) == copy_profile_args_of(*profile, out_path@));
        }
        (args, profile.get_nix_sshopts())
    }
}

// ---------------------------------------------------------------------------
// The results table
// ---------------------------------------------------------------------------

pub open spec fn status_piece(s: Status) -> (Style, Seq<char>) {
    match s {
        Status::Success => (Style::Success, "success"@),
        Status::Failure => (Style::Failure, "failure"@),
    }
}

impl Status {
    /// The word for the status, in its style.
    pub fn display(&self) -> (r: Piece)
        ensures
            (r.style, r.text@) == status_piece(*self),
    {
        match self {
            Status::Success => Piece { style: Style::Success, text: String::from_str("success") },
            Status::Failure => Piece { style: Style::Failure, text: String::from_str("failure") },
        }
    }
}

pub type PushRowView = (ProfileInfo, Status);

pub open spec fn push_rows_view(g: Seq<(&ProfileInfo, Status)>) -> Seq<PushRowView> {
    g.map_values(|e: (&ProfileInfo, Status)| (*e.0, e.1))
}

pub open spec fn push_results_view(rs: Seq<Vec<(&ProfileInfo, Status)>>) -> Seq<Seq<PushRowView>> {
    rs.map_values(|g: Vec<(&ProfileInfo, Status)>| push_rows_view(g@))
}

/// The node of the first row of each node that has rows.
pub open spec fn push_first_nodes(rs: Seq<Seq<PushRowView>>) -> Seq<Seq<char>>
    decreases rs.len(),
{
    if rs.len() == 0 {
        Seq::empty()
    } else {
        push_first_nodes(rs.drop_last()) + if rs.last().len() > 0 {
            seq![rs.last()[0].0.node@]
        } else {
            Seq::empty()
        }
    }
}

/// The profile names of all rows.
pub open spec fn push_profile_names(rs: Seq<Seq<PushRowView>>) -> Seq<Seq<char>>
    decreases rs.len(),
{
    if rs.len() == 0 {
        Seq::empty()
    } else {
        push_profile_names(rs.drop_last()) + rs.last().map_values(|r: PushRowView| r.0.profile@)
    }
}

/// One row: the profile name padded to `profile_width`, then the result.
pub open spec fn push_row_text(row: PushRowView, profile_width: nat) -> StyledText {
    seq![(Style::Profile, padded(row.0.profile@, profile_width)), (Style::Plain, spaces(1)), status_piece(row.1)]
}

pub open spec fn push_group_name(g: Seq<PushRowView>) -> Seq<char> {
    if g.len() > 0 {
        g[0].0.node@
    } else {
        Seq::empty()
    }
}

pub open spec fn push_group_rows(g: Seq<PushRowView>, profile_width: nat) -> Seq<StyledText> {
    g.map_values(|r: PushRowView| push_row_text(r, profile_width))
}

pub open spec fn push_groups(rs: Seq<Seq<PushRowView>>, profile_width: nat) -> Seq<(Seq<char>, Seq<StyledText>)> {
    rs.map_values(|g: Seq<PushRowView>| (push_group_name(g), push_group_rows(g, profile_width)))
}

/// The results table: a row for each profile, grouped by node.
pub open spec fn push_results_text(rs: Seq<Seq<PushRowView>>) -> StyledText {
    table_text(
        "Push results:"@,
        push_groups(rs, max_width(push_profile_names(rs))),
        max_width(push_first_nodes(rs)),
    )
}

impl PushArgs {
    /// Shows the result of pushing each profile.
    pub fn display_results(&self, results: &Vec<Vec<(&ProfileInfo, Status)>>) -> (r: Vec<Piece>)
        ensures
            piece_views(r@) == push_results_text(push_results_view(results@)),
    {
        let ghost rs = push_results_view(results@);
        let mut firsts: Vec<String> = Vec::new();
        let mut pnames: Vec<String> = Vec::new();
        let mut i: usize = 0;
        while i < results.len()
            invariant
                i <= results@.len(),
                rs == push_results_view(results@),
                string_views(firsts@) == push_first_nodes(rs.take(i as int)),
                string_views(pnames@) == push_profile_names(rs.take(i as int)),
            decreases results@.len() - i,
        {
            let g = &results[i];
            proof {
                assert(rs.take(i + 1).drop_last() == rs.take(i as int));
                assert(rs.take(i + 1).last() == push_rows_view(g@));
            }
            if g.len() > 0 {
                let ghost before = firsts@;
                firsts.push(g[0].0.node.clone());
                proof {
                    assert(string_views(firsts@) == string_views(before).push(g@[0].0.node@));
                }
            }
            let ghost start = string_views(pnames@);
            let mut k: usize = 0;
            while k < g.len()
                invariant
                    k <= g@.len(),
                    string_views(pnames@) == start + push_rows_view(g@).take(k as int).map_values(|r: PushRowView| r.0.profile@),
                decreases g@.len() - k,
            {
                let ghost before = pnames@;
                pnames.push(g[k].0.profile.clone());
                proof {
                    assert(string_views(pnames@) == string_views(before).push(g@[k as int].0.profile@));
                    assert(push_rows_view(g@).take(k + 1).map_values(|r: PushRowView| r.0.profile@) == push_rows_view(g@).take(k as int).map_values(|r: PushRowView| r.0.profile@).push(g@[k as int].0.profile@));
                }
                k = k + 1;
            }
            proof {
                assert(push_rows_view(g@).take(k as int) == push_rows_view(g@));
            }
            i = i + 1;
        }
        proof {
            assert(rs.take(i as int) == rs);
        }
        let node_width = get_max_width(&firsts);
        let profile_width = get_max_width(&pnames);
        let mut groups: Vec<(String, Vec<Vec<Piece>>)> = Vec::new();
        let mut j: usize = 0;
        while j < results.len()
            invariant
                j <= results@.len(),
                rs == push_results_view(results@),
                groups_view(groups@) == push_groups(rs, profile_width as nat).take(j as int),
            decreases results@.len() - j,
        {
            let g = &results[j];
            let ghost gv = push_rows_view(g@);
            let mut rows: Vec<Vec<Piece>> = Vec::new();
            let mut k: usize = 0;
            while k < g.len()
                invariant
                    k <= g@.len(),
                    gv == push_rows_view(g@),
                    rows_view(rows@) == push_group_rows(gv, profile_width as nat).take(k as int),
                decreases g@.len() - k,
            {
                let entry = &g[k];
                let mut row: Vec<Piece> = Vec::new();
                push_piece(&mut row, Style::Profile, pad(entry.0.profile.as_str(), profile_width));
                push_piece(&mut row, Style::Plain, make_spaces(1));
                let st = entry.1.display();
                push_piece(&mut row, st.style, st.text);
                let ghost before = rows@;
                rows.push(row);
                proof {
                    assert(rows_view(rows@) == rows_view(before).push(piece_views(row@)));
                    assert(gv[k as int] == (*entry.0, entry.1));
                    assert(piece_views(row@) == push_row_text(gv[k as int], profile_width as nat));
                    assert(push_group_rows(gv, profile_width as nat).take(k + 1) == push_group_rows(gv, profile_width as nat).take(k as int).push(push_row_text(gv[k as int], profile_width as nat)));
                }
                k = k + 1;
            }
            let name = if g.len() > 0 {
                g[0].0.node.clone()
            } else {
                String::new()
            };
            let ghost before = groups@;
            proof {
                assert(push_group_rows(gv, profile_width as nat).take(k as int) == push_group_rows(gv, profile_width as nat));
            }
            groups.push((name, rows));
            proof {
                assert(groups_view(groups@) == groups_view(before).push((name@, rows_view(rows@))));
                assert(rs[j as int] == gv);
                assert(push_groups(rs, profile_width as nat).take(j + 1) == push_groups(rs, profile_width as nat).take(j as int).push((push_group_name(gv), push_group_rows(gv, profile_width as nat))));
            }
            j = j + 1;
        }
        proof {
            assert(push_groups(rs, profile_width as nat).take(j as int) == push_groups(rs, profile_width as nat));
        }
        table(String::from_str("Push results:"), &groups, node_width)
    }
}

}
