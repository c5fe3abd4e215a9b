//! `status` subcommand: check whether deployed profiles match the local configuration.

use vstd::prelude::*;

use crate::display::{
    get_max_width, groups_view, make_spaces, max_width, pad, padded, piece_views, push_piece,
    append_pieces, rows_view, spaces, string_views, table, table_text, Piece, Style, StyledText,
};
use crate::command::CmdErrorKind;
use crate::profile::{quote_body, ProfileInfo};
use crate::text::{chars_of, has_prefix, str_eq, strip_prefix};

verus! {

/// Check if deployed profiles match local configuration.
pub struct StatusArgs {
    /// Check profiles from these nodes only (all nodes when absent).
    pub nodes: Option<Vec<String>>,
    /// The flake to use as a source of profiles.
    pub flake: String,
    /// Number of Nix evaluations to perform in parallel: zero means as many as
    /// there are available threads, `-N` means `N` fewer than that.
    pub eval_jobs: isize,
    /// Include profile store paths in the output.
    pub show_paths: bool,
}

// ---------------------------------------------------------------------------
// Querying the deployed profile
// ---------------------------------------------------------------------------

/// The shell script run on a node: it prints what is deployed at the profile
/// path given as its argument.
pub fn check_profile_script() -> (r: &'static str)
    ensures
        r@ == check_profile_script_text(),
{
    "if [ -L \"$1\" ]; then deployed=$(realpath \"$1\"); if [ \"$1\" = /nix/var/nix/profiles/system ]; then inner=$(dirname \"$(realpath \"$deployed/activate\")\"); active=$(realpath /run/current-system); if [ \"$inner\" = \"$active\" ]; then printf \"valid;%s\" \"$deployed\"; else printf \"needs reboot;%s\" \"$deployed\"; fi else printf \"valid;%s\" \"$deployed\"; fi elif [ -e \"$1\" ]; then printf \"invalid;\"; else printf \"missing;\"; fi"
}

pub open spec fn check_profile_script_text() -> Seq<char> {
    "if [ -L \"$1\" ]; then deployed=$(realpath \"$1\"); if [ \"$1\" = /nix/var/nix/profiles/system ]; then inner=$(dirname \"$(realpath \"$deployed/activate\")\"); active=$(realpath /run/current-system); if [ \"$inner\" = \"$active\" ]; then printf \"valid;%s\" \"$deployed\"; else printf \"needs reboot;%s\" \"$deployed\"; fi else printf \"valid;%s\" \"$deployed\"; fi elif [ -e \"$1\" ]; then printf \"invalid;\"; else printf \"missing;\"; fi"@
}

/// `s` in single quotes for a POSIX shell.
pub open spec fn single_quoted(s: Seq<char>) -> Seq<char> {
    seq!['\''] + quote_body(s) + seq!['\'']
}

/// Quotes `s` for a POSIX shell.
pub fn shell_quote(s: &str) -> (r: String)
    ensures
        r@ == single_quoted(s@),
{
    let cs = chars_of(s);
    let mut out = String::new();
    out.push('\'');
    let mut j: usize = 0;
    proof {
        assert(cs@.skip(0) == cs@);
    }
    while j < cs.len()
        invariant
            j <= cs@.len(),
            cs@ == s@,
            out@ + quote_body(cs@.skip(j as int)) == seq!['\''] + quote_body(cs@),
        decreases cs@.len() - j,
    {
        let c = cs[j];
        let ghost before = out@;
        proof {
            assert(cs@.skip(j as int)[0] == c);
            assert(cs@.skip(j as int).drop_first() == cs@.skip(j + 1));
        }
        if c == '\'' {
            out.push('\'');
            out.push('\\');
            out.push('\'');
            out.push('\'');
        } else {
            out.push(c);
        }
        proof {
            assert(out@ == before + (if c == '\'' {
                seq!['\'', '\\', '\'', '\'']
            } else {
                seq![c]
            }));
        }
        j = j + 1;
    }
    proof {
        assert(cs@.skip(j as int) == Seq::<char>::empty());
    }
    out.push('\'');
    out
}

/// The arguments of `ssh` that run the profile query script for the profile on its node.
pub open spec fn ssh_query_args_of(p: ProfileInfo) -> Seq<Seq<char>> {
    seq!["-T"@, "-o"@, "ConnectTimeout=3"@] + string_views(p.ssh_opts@) + seq![
        "-o"@,
        "User="@ + p.ssh_user@,
        p.hostname@,
        "--"@,
        "/bin/sh"@,
        "-c"@,
        single_quoted(check_profile_script_text()),
        "sh"@,
        single_quoted(p.profile_path@),
    ]
}

fn push_str(v: &mut Vec<String>, s: String)
    ensures
        string_views(final(v)@) == string_views(old(v)@).push(s@),
{
    let ghost before = v@;
    v.push(s);
    proof {
        assert(string_views(v@) == string_views(before).push(s@));
    }
}

/// The arguments of `ssh` that query the profile deployed on the profile's node.
pub fn ssh_query_args(profile: &ProfileInfo) -> (r: Vec<String>)
    ensures
        string_views(r@) == ssh_query_args_of(*profile),
{
    let mut args: Vec<String> = Vec::new();
    push_str(&mut args, String::from_str("-T"));
    push_str(&mut args, String::from_str("-o"));
    push_str(&mut args, String::from_str("ConnectTimeout=3"));
    let ghost head = string_views(args@);
    let mut i: usize = 0;
    while i < profile.ssh_opts.len()
        invariant
            i <= profile.ssh_opts@.len(),
            string_views(args@) == head + string_views(profile.ssh_opts@).take(i as int),
        decreases profile.ssh_opts@.len() - i,
    {
        push_str(&mut args, profile.ssh_opts[i].clone());
        proof {
            assert(string_views(profile.ssh_opts@).take(i + 1) == string_views(profile.ssh_opts@).take(i as int).push(profile.ssh_opts@[i as int]@));
        }
        i = i + 1;
    }
    proof {
        assert(string_views(profile.ssh_opts@).take(i as int) == string_views(profile.ssh_opts@));
    }
    let ghost mid = string_views(args@);
    push_str(&mut args, String::from_str("-o"));
    let mut user = String::from_str("User=");
    user.append(profile.ssh_user.as_str());
    push_str(&mut args, user);
    push_str(&mut args, profile.hostname.clone());
    push_str(&mut args, String::from_str("--"));
    push_str(&mut args, String::from_str("/bin/sh"));
    push_str(&mut args, String::from_str("-c"));
    push_str(&mut args, shell_quote(check_profile_script()));
    push_str(&mut args, String::from_str("sh"));
    push_str(&mut args, shell_quote(profile.profile_path.as_str()));
    proof {
        assert(string_views(args@) == ssh_query_args_of(*profile));
    }
    args
}

/// What the profile query script found at a profile path.
#[derive(Debug)]
pub enum QueryResult {
    Valid { deployed_path: String, needs_reboot: bool },
    Invalid,
    Missing,
    Unknown,
}

/// A query result as plain values.
pub enum QueryView {
    Valid(Seq<char>, bool),
    Invalid,
    Missing,
    Unknown,
}

impl View for QueryResult {
    type V = QueryView;

    open spec fn view(&self) -> QueryView {
        match self {
            QueryResult::Valid { deployed_path, needs_reboot } => QueryView::Valid(
                deployed_path@,
                *needs_reboot,
            ),
            QueryResult::Invalid => QueryView::Invalid,
            QueryResult::Missing => QueryView::Missing,
            QueryResult::Unknown => QueryView::Unknown,
        }
    }
}

/// The result that the profile query script's output `s` reports.
pub open spec fn parse_query(s: Seq<char>) -> Option<QueryView> {
    if has_prefix(s, "valid;"@) {
        Some(QueryView::Valid(s.skip("valid;"@.len() as int), false))
    } else if has_prefix(s, "needs reboot;"@) {
        Some(QueryView::Valid(s.skip("needs reboot;"@.len() as int), true))
    } else if s == "invalid;"@ {
        Some(QueryView::Invalid)
    } else if s == "missing;"@ {
        Some(QueryView::Missing)
    } else {
        None
    }
}

impl QueryResult {
    /// Reads the output of the profile query script.
    pub fn parse(s: &str) -> (r: Option<QueryResult>)
        ensures
            r is Some <==> parse_query(s@) is Some,
            r is Some ==> parse_query(s@) == Some(r->0@),
    {
        if let Some(deployed_path) = strip_prefix(s, "valid;") {
            Some(QueryResult::Valid { deployed_path, needs_reboot: false })
        } else if let Some(deployed_path) = strip_prefix(s, "needs reboot;") {
            Some(QueryResult::Valid { deployed_path, needs_reboot: true })
        } else if str_eq(s, "invalid;") {
            Some(QueryResult::Invalid)
        } else if str_eq(s, "missing;") {
            Some(QueryResult::Missing)
        } else {
            None
        }
    }
}

/// The outputs that the profile query script prints are read as what they report.
pub proof fn law_query_outputs_read(path: Seq<char>)
    ensures
        parse_query("valid;"@ + path) == Some(QueryView::Valid(path, false)),
        parse_query("needs reboot;"@ + path) == Some(QueryView::Valid(path, true)),
        parse_query("invalid;"@) == Some(QueryView::Invalid),
        parse_query("missing;"@) == Some(QueryView::Missing),
        parse_query(Seq::empty()) == None::<QueryView>,
{
    reveal_strlit("valid;");
    reveal_strlit("needs reboot;");
    reveal_strlit("invalid;");
    reveal_strlit("missing;");
    let v = "valid;"@;
    let n = "needs reboot;"@;
    assert(("valid;"@ + path).take(v.len() as int) =~= v);
    assert(("valid;"@ + path).skip(v.len() as int) =~= path);
    assert(!has_prefix("needs reboot;"@ + path, v)) by {
        assert(("needs reboot;"@ + path)[0] == 'n');
        assert(("needs reboot;"@ + path).take(v.len() as int)[0] != v[0]);
    }
    assert(("needs reboot;"@ + path).take(n.len() as int) =~= n);
    assert(("needs reboot;"@ + path).skip(n.len() as int) =~= path);
    assert(!has_prefix("invalid;"@, v)) by {
        assert("invalid;"@.take(v.len() as int)[0] != v[0]);
    }
    assert(!has_prefix("invalid;"@, n)) by {
        assert("invalid;"@.take(n.len() as int).len() > "invalid;"@.len() || "invalid;"@.len() < n.len());
    }
    assert(!has_prefix("missing;"@, v)) by {
        assert("missing;"@.take(v.len() as int)[0] != v[0]);
    }
    assert(!has_prefix("missing;"@, n)) by {
        assert("missing;"@.len() < n.len());
    }
    assert("missing;"@ != "invalid;"@) by {
        assert("missing;"@[0] != "invalid;"@[0]);
    }
}

/// Why the output of the profile query script could not be read.
#[derive(Debug, Clone, Copy, PartialEq, Eq, Structural)]
pub enum UnexpectedOutput {
    /// The script printed nothing.
    Empty,
    /// The script printed something else than a result.
    Unrecognized,
}

/// Reads the output of the profile query script, or says why it cannot be read.
pub fn read_query_output(output: &str) -> (r: Result<QueryResult, UnexpectedOutput>)
    ensures
        r is Ok <==> parse_query(output@) is Some,
        r is Ok ==> parse_query(output@) == Some(r->Ok_0@),
        r == Err::<QueryResult, UnexpectedOutput>(UnexpectedOutput::Empty) <==> parse_query(output@) is None && output@.len() == 0,
        r == Err::<QueryResult, UnexpectedOutput>(UnexpectedOutput::Unrecognized) <==> parse_query(output@) is None && output@.len() > 0,
{
    match QueryResult::parse(output) {
        Some(q) => Ok(q),
        None => {
            if output.unicode_len() == 0 {
                Err(UnexpectedOutput::Empty)
            } else {
                Err(UnexpectedOutput::Unrecognized)
            }
        },
    }
}

impl UnexpectedOutput {
    /// The description of the problem for the user.
    pub fn message(&self) -> (r: &'static str)
        ensures
            r@ == match self {
                UnexpectedOutput::Empty => "external program ssh did not produce any output"@,
                UnexpectedOutput::Unrecognized => "external program ssh produced unexpected output"@,
            },
    {
        match self {
            UnexpectedOutput::Empty => "external program ssh did not produce any output",
            UnexpectedOutput::Unrecognized => "external program ssh produced unexpected output",
        }
    }
}

/// Why a profile query could not give a result.
#[derive(Debug, Clone, Copy, PartialEq, Eq, Structural)]
pub enum QueryFailure {
    /// Running `ssh` failed otherwise than by an unsuccessful exit.
    Command(CmdErrorKind),
    /// `ssh` printed something that is not a result.
    Output(UnexpectedOutput),
}

/// The result of a profile query from how `ssh` ended: an unsuccessful exit
/// means that the deployed profile is unknown, and other failures are errors;
/// otherwise the printed text is read as the query script's output.
pub open spec fn query_outcome(outcome: Result<Seq<char>, CmdErrorKind>) -> Result<QueryView, QueryFailure> {
    match outcome {
        Err(kind) => if kind == CmdErrorKind::ExitCodeStatus || kind == CmdErrorKind::ExitCodeOutput {
            Ok(QueryView::Unknown)
        } else {
            Err(QueryFailure::Command(kind))
        },
        Ok(text) => match parse_query(text) {
            Some(q) => Ok(q),
            None => if text.len() == 0 {
                Err(QueryFailure::Output(UnexpectedOutput::Empty))
            } else {
                Err(QueryFailure::Output(UnexpectedOutput::Unrecognized))
            },
        },
    }
}

pub open spec fn outcome_view(outcome: Result<String, CmdErrorKind>) -> Result<Seq<char>, CmdErrorKind> {
    match outcome {
        Ok(text) => Ok(text@),
        Err(kind) => Err(kind),
    }
}

/// The result of a profile query, given how `ssh` ended: the text it printed
/// (as UTF-8) or how running it failed.
pub fn query_result_of(outcome: Result<String, CmdErrorKind>) -> (r: Result<QueryResult, QueryFailure>)
    ensures
        match query_outcome(outcome_view(outcome)) {
            Ok(q) => r is Ok && r->Ok_0@ == q,
            Err(f) => r == Err::<QueryResult, QueryFailure>(f),
        },
{
    match outcome {
        Err(kind) => {
            if kind.is_exit_code_error() {
                Ok(QueryResult::Unknown)
            } else {
                Err(QueryFailure::Command(kind))
            }
        },
        Ok(text) => match read_query_output(text.as_str()) {
            Ok(q) => Ok(q),
            Err(u) => Err(QueryFailure::Output(u)),
        },
    }
}

// ---------------------------------------------------------------------------
// Evaluating the local profile
// ---------------------------------------------------------------------------

/// The string that the JSON text `b` holds, where it is a JSON string (as
/// `serde_json` decodes it).
pub uninterp spec fn json_string_of(b: Seq<u8>) -> Option<Seq<char>>;

/// Calls `serde_json::from_slice::<String>`, which decodes the bytes as a JSON
/// string; the result depends on the bytes alone and is named `json_string_of`.
#[verifier::external_body]
fn decode_json_string(bytes: &[u8]) -> (r: Option<String>)
    ensures
        r is Some <==> json_string_of(bytes@) is Some,
        r is Some ==> json_string_of(bytes@) == Some(r->0@),
{
    match serde_json::from_slice::<String>(bytes) {
        Ok(s) => Some(s),
        Err(_) => None,
    }
}

/// The local path of a profile from how `nix eval --json` ended: the string
/// that it printed; none when Nix exited unsuccessfully or printed something
/// else than a JSON string; an error when Nix could not be run.
pub fn local_path_of(outcome: Result<Vec<u8>, CmdErrorKind>) -> (r: Result<Option<String>, CmdErrorKind>)
    ensures
        match outcome {
            Ok(b) => {
                &&& r is Ok
                &&& (r->Ok_0 is Some <==> json_string_of(b@) is Some)
                &&& (r->Ok_0 is Some ==> json_string_of(b@) == Some(r->Ok_0->0@))
            },
            Err(k) => if k == CmdErrorKind::ExitCodeStatus || k == CmdErrorKind::ExitCodeOutput
                || k == CmdErrorKind::Json {
                r == Ok::<Option<String>, CmdErrorKind>(None)
            } else {
                r == Err::<Option<String>, CmdErrorKind>(k)
            },
        },
{
    match outcome {
        Ok(bytes) => Ok(decode_json_string(bytes.as_slice())),
        Err(kind) => {
            if kind.eval_failure_is_skipped() {
                Ok(None)
            } else {
                Err(kind)
            }
        },
    }
}

/// The number of threads for evaluations: `eval_jobs` when positive, else the
/// available parallelism (1 when unknown) lowered by `-eval_jobs`, and at least 1.
pub open spec fn thread_count_for(eval_jobs: int, available: Option<usize>) -> int {
    if eval_jobs >= 1 {
        eval_jobs
    } else {
        let a: int = match available {
            Some(n) => n as int,
            None => 1,
        };
        if a + eval_jobs >= 1 {
            a + eval_jobs
        } else {
            1
        }
    }
}

impl StatusArgs {
    /// The number of threads to evaluate profiles with.
    pub fn thread_count(&self, available: Option<usize>) -> (r: usize)
        ensures
            r == thread_count_for(self.eval_jobs as int, available),
            r >= 1,
    {
        if self.eval_jobs >= 1 {
            self.eval_jobs as usize
        } else {
            let a: usize = match available {
                Some(n) => n,
                None => 1,
            };
            let lower: usize = if self.eval_jobs == isize::MIN {
                isize::MAX as usize + 1
            } else {
                (-self.eval_jobs) as usize
            };
            if a > lower {
                a - lower
            } else {
                1
            }
        }
    }

    /// Whether the local path of a profile is evaluated: when the deployed one
    /// is known, or when paths are shown.
    pub fn needs_local_eval(&self, query_result: &QueryResult) -> (r: bool)
        ensures
            r == (query_result@ is Valid || self.show_paths),
    {
        match query_result {
            QueryResult::Valid { .. } => true,
            _ => self.show_paths,
        }
    }

    /// The arguments of `nix` that evaluate the profile's local path as JSON.
    pub fn local_eval_args(&self, profile: &ProfileInfo) -> (r: Vec<String>)
        ensures
            string_views(r@) == seq![
                "eval"@,
                "--json"@,
                "--"@,
                self.flake@ + "#.deploy.nodes."@ + profile.node@ + ".profiles."@ + profile.profile@ + ".path.outPath"@,
            ],
    {
        let mut args: Vec<String> = Vec::new();
        push_str(&mut args, String::from_str("eval"));
        push_str(&mut args, String::from_str("--json"));
        push_str(&mut args, String::from_str("--"));
        push_str(&mut args, self.local_path_installable(profile));
        proof {
            assert(string_views(args@) =~= seq![
                "eval"@,
                "--json"@,
                "--"@,
                self.flake@ + "#.deploy.nodes."@ + profile.node@ + ".profiles."@ + profile.profile@ + ".path.outPath"@,
            ]);
        }
        args
    }

    /// The installable whose output path is the profile's local path.
    pub fn local_path_installable(&self, profile: &ProfileInfo) -> (r: String)
        ensures
            r@ == self.flake@ + "#.deploy.nodes."@ + profile.node@ + ".profiles."@ + profile.profile@ + ".path.outPath"@,
    {
        let mut r = self.flake.clone();
        r.append("#.deploy.nodes.");
        r.append(profile.node.as_str());
        r.append(".profiles.");
        r.append(profile.profile.as_str());
        r.append(".path.outPath");
        r
    }
}

// ---------------------------------------------------------------------------
// The status of a profile
// ---------------------------------------------------------------------------

/// How the deployed profile compares with the local one.
#[derive(Debug)]
pub enum ProfileStatus<'a> {
    UpToDate { path: &'a str },
    NeedsReboot { path: &'a str },
    Outdated { deployed_path: &'a str, local_path: &'a str },
    Invalid { local_path: Option<&'a str> },
    Missing { local_path: Option<&'a str> },
    Unknown { deployed_path: Option<&'a str>, local_path: Option<&'a str> },
}

/// A profile status as plain values.
pub enum StatusView {
    UpToDate(Seq<char>),
    NeedsReboot(Seq<char>),
    Outdated(Seq<char>, Seq<char>),
    Invalid(Option<Seq<char>>),
    Missing(Option<Seq<char>>),
    Unknown(Option<Seq<char>>, Option<Seq<char>>),
}

pub open spec fn str_opt_view(o: Option<&str>) -> Option<Seq<char>> {
    match o {
        Some(s) => Some(s@),
        None => None,
    }
}

impl<'a> View for ProfileStatus<'a> {
    type V = StatusView;

    open spec fn view(&self) -> StatusView {
        match self {
            ProfileStatus::UpToDate { path } => StatusView::UpToDate(path@),
            ProfileStatus::NeedsReboot { path } => StatusView::NeedsReboot(path@),
            ProfileStatus::Outdated { deployed_path, local_path } => StatusView::Outdated(
                deployed_path@,
                local_path@,
            ),
            ProfileStatus::Invalid { local_path } => StatusView::Invalid(str_opt_view(*local_path)),
            ProfileStatus::Missing { local_path } => StatusView::Missing(str_opt_view(*local_path)),
            ProfileStatus::Unknown { deployed_path, local_path } => StatusView::Unknown(
                str_opt_view(*deployed_path),
                str_opt_view(*local_path),
            ),
        }
    }
}

/// The status of a profile from what is deployed and the local path, if evaluated.
pub open spec fn status_of(remote: QueryView, local: Option<Seq<char>>) -> StatusView {
    match remote {
        QueryView::Valid(deployed, needs_reboot) => match local {
            Some(l) => if l == deployed {
                if needs_reboot {
                    StatusView::NeedsReboot(l)
                } else {
                    StatusView::UpToDate(l)
                }
            } else {
                StatusView::Outdated(deployed, l)
            },
            None => StatusView::Unknown(Some(deployed), None),
        },
        QueryView::Invalid => StatusView::Invalid(local),
        QueryView::Missing => StatusView::Missing(local),
        QueryView::Unknown => StatusView::Unknown(None, local),
    }
}

/// The summary word of a status and its style.
pub open spec fn summary_of(st: StatusView) -> (Style, Seq<char>) {
    match st {
        StatusView::UpToDate(_) => (Style::Success, "up to date"@),
        StatusView::NeedsReboot(_) => (Style::Warning, "needs reboot"@),
        StatusView::Outdated(..) => (Style::Warning, "outdated"@),
        StatusView::Invalid(_) => (Style::Failure, "invalid"@),
        StatusView::Missing(_) => (Style::Warning, "missing"@),
        StatusView::Unknown(..) => (Style::Unknown, "unknown"@),
    }
}

/// A profile is up to date exactly when the deployed path is known, equals the
/// local path and no reboot is pending; it needs a reboot exactly when the paths
/// are equal and a reboot is pending; any other known pair of paths is outdated.
pub proof fn law_status_of_paths(remote: QueryView, local: Option<Seq<char>>)
    ensures
        status_of(remote, local) is UpToDate <==> exists|d: Seq<char>| remote == QueryView::Valid(d, false) && local == Some(d),
        status_of(remote, local) is NeedsReboot <==> exists|d: Seq<char>| remote == QueryView::Valid(d, true) && local == Some(d),
        status_of(remote, local) is Outdated <==> exists|d: Seq<char>, r: bool, l: Seq<char>| remote == QueryView::Valid(d, r) && local == Some(l) && l != d,
{
    match remote {
        QueryView::Valid(d, r) => {
            if let Some(l) = local {
                if l != d {
                    assert(remote == QueryView::Valid(d, r) && local == Some(l) && l != d);
                }
            }
        },
        _ => {},
    }
}

/// The paths that are known stay in the status: a deployed path that cannot be
/// compared, and the local path whenever the deployed profile is invalid,
/// missing or unknown.
pub proof fn law_status_keeps_paths(remote: QueryView, local: Option<Seq<char>>)
    ensures
        remote == QueryView::Invalid ==> status_of(remote, local) == StatusView::Invalid(local),
        remote == QueryView::Missing ==> status_of(remote, local) == StatusView::Missing(local),
        remote == QueryView::Unknown ==> status_of(remote, local) == StatusView::Unknown(None, local),
        remote is Valid && local is None ==> status_of(remote, local) == StatusView::Unknown(Some(remote->Valid_0), None),
        remote is Valid && local is Some && local->0 != remote->Valid_0 ==> status_of(remote, local)
            == StatusView::Outdated(remote->Valid_0, local->0),
{
}

/// A line below the profile's row that shows a path.
pub open spec fn path_line(node_width: nat, label: Seq<char>, path: Seq<char>) -> Seq<char> {
    "\n  "@ + spaces(node_width) + label + path
}

pub open spec fn opt_path_line(node_width: nat, label: Seq<char>, path: Option<Seq<char>>) -> Seq<char> {
    match path {
        Some(p) => path_line(node_width, label, p),
        None => Seq::empty(),
    }
}

/// The paths of a status, as shown after its summary.
pub open spec fn paths_of(st: StatusView, node_width: nat) -> Seq<char> {
    match st {
        StatusView::UpToDate(p) => " "@ + p,
        StatusView::NeedsReboot(p) => " "@ + p,
        StatusView::Outdated(d, l) => path_line(node_width, "   deployed path: "@, d) + path_line(
            node_width,
            "   local path:    "@,
            l,
        ),
        StatusView::Invalid(l) => opt_path_line(node_width, "   local path: "@, l),
        StatusView::Missing(l) => opt_path_line(node_width, "   local path: "@, l),
        StatusView::Unknown(d, l) => opt_path_line(node_width, "   deployed path: "@, d)
            + opt_path_line(node_width, "   local path:    "@, l),
    }
}

/// How a status is shown: its summary and, when paths are shown, its paths.
pub open spec fn status_text(st: StatusView, node_width: nat, show_paths: bool) -> StyledText {
    seq![summary_of(st)] + if show_paths {
        seq![(Style::Plain, paths_of(st, node_width))]
    } else {
        Seq::empty()
    }
}

fn path_line_string(node_width: usize, label: &str, path: &str) -> (r: String)
    ensures
        r@ == path_line(node_width as nat, label@, path@),
{
    let mut r = String::from_str("\n  ");
    let fill = make_spaces(node_width);
    r.append(fill.as_str());
    r.append(label);
    r.append(path);
    r
}

fn opt_path_line_string(node_width: usize, label: &str, path: Option<&str>) -> (r: String)
    ensures
        r@ == opt_path_line(node_width as nat, label@, str_opt_view(path)),
{
    match path {
        Some(p) => path_line_string(node_width, label, p),
        None => String::new(),
    }
}

impl<'a> ProfileStatus<'a> {
    pub fn from_paths(remote: &'a QueryResult, local_path: Option<&'a str>) -> (r: ProfileStatus<'a>)
        ensures
            r@ == status_of(remote@, str_opt_view(local_path)),
    {
        match remote {
            QueryResult::Valid { deployed_path, needs_reboot } => match local_path {
                Some(local_path) => {
                    if str_eq(local_path, deployed_path.as_str()) {
                        if *needs_reboot {
                            ProfileStatus::NeedsReboot { path: local_path }
                        } else {
                            ProfileStatus::UpToDate { path: local_path }
                        }
                    } else {
                        ProfileStatus::Outdated { deployed_path: deployed_path.as_str(), local_path }
                    }
                },
                None => ProfileStatus::Unknown {
                    deployed_path: Some(deployed_path.as_str()),
                    local_path: None,
                },
            },
            QueryResult::Invalid => ProfileStatus::Invalid { local_path },
            QueryResult::Missing => ProfileStatus::Missing { local_path },
            QueryResult::Unknown => ProfileStatus::Unknown { deployed_path: None, local_path },
        }
    }

    /// The summary word of the status.
    pub fn display_summary(&self) -> (r: Piece)
        ensures
            (r.style, r.text@) == summary_of(self@),
    {
        match self {
            ProfileStatus::UpToDate { .. } => Piece { style: Style::Success, text: String::from_str("up to date") },
            ProfileStatus::NeedsReboot { .. } => Piece { style: Style::Warning, text: String::from_str("needs reboot") },
            ProfileStatus::Outdated { .. } => Piece { style: Style::Warning, text: String::from_str("outdated") },
            ProfileStatus::Invalid { .. } => Piece { style: Style::Failure, text: String::from_str("invalid") },
            ProfileStatus::Missing { .. } => Piece { style: Style::Warning, text: String::from_str("missing") },
            ProfileStatus::Unknown { .. } => Piece { style: Style::Unknown, text: String::from_str("unknown") },
        }
    }

    /// The status with, when `show_paths`, its paths.
    pub fn display(&self, node_width: usize, show_paths: bool) -> (r: Vec<Piece>)
        ensures
            piece_views(r@) == status_text(self@, node_width as nat, show_paths),
    {
        let summary = self.display_summary();
        let mut out: Vec<Piece> = Vec::new();
        push_piece(&mut out, summary.style, summary.text);
        if show_paths {
            let paths = match self {
                ProfileStatus::UpToDate { path } | ProfileStatus::NeedsReboot { path } => {
                    let mut t = String::from_str(" ");
                    t.append(path);
                    t
                },
                ProfileStatus::Outdated { deployed_path, local_path } => {
                    let mut t = path_line_string(node_width, "   deployed path: ", deployed_path);
                    let l = path_line_string(node_width, "   local path:    ", local_path);
                    t.append(l.as_str());
                    t
                },
                ProfileStatus::Invalid { local_path } | ProfileStatus::Missing { local_path } => {
                    opt_path_line_string(node_width, "   local path: ", *local_path)
                },
                ProfileStatus::Unknown { deployed_path, local_path } => {
                    let mut t = opt_path_line_string(node_width, "   deployed path: ", *deployed_path);
                    let l = opt_path_line_string(node_width, "   local path:    ", *local_path);
                    t.append(l.as_str());
                    t
                },
            };
            push_piece(&mut out, Style::Plain, paths);
        }
        out
    }
}

// ---------------------------------------------------------------------------
// The status table
// ---------------------------------------------------------------------------

/// One row of results as plain values: the profile, the query result and the local path.
pub type StatusRowView = (ProfileInfo, QueryView, Option<Seq<char>>);

pub open spec fn string_opt_view(o: Option<String>) -> Option<Seq<char>> {
    match o {
        Some(s) => Some(s@),
        None => None,
    }
}

pub open spec fn status_rows_view(g: Seq<(&ProfileInfo, QueryResult, Option<String>)>) -> Seq<StatusRowView> {
    g.map_values(|e: (&ProfileInfo, QueryResult, Option<String>)| (*e.0, e.1@, string_opt_view(e.2)))
}

pub open spec fn status_results_view(rs: Seq<Vec<(&ProfileInfo, QueryResult, Option<String>)>>) -> Seq<Seq<StatusRowView>> {
    rs.map_values(|g: Vec<(&ProfileInfo, QueryResult, Option<String>)>| status_rows_view(g@))
}

/// The node of the first row of each node that has rows.
pub open spec fn status_first_nodes(rs: Seq<Seq<StatusRowView>>) -> Seq<Seq<char>>
    decreases rs.len(),
{
    if rs.len() == 0 {
        Seq::empty()
    } else {
        status_first_nodes(rs.drop_last()) + if rs.last().len() > 0 {
            seq![rs.last()[0].0.node@]
        } else {
            Seq::empty()
        }
    }
}

/// The profile names of all rows.
pub open spec fn status_profile_names(rs: Seq<Seq<StatusRowView>>) -> Seq<Seq<char>>
    decreases rs.len(),
{
    if rs.len() == 0 {
        Seq::empty()
    } else {
        status_profile_names(rs.drop_last()) + rs.last().map_values(|r: StatusRowView| r.0.profile@)
    }
}

/// One row: the profile name padded to `profile_width`, then the status.
pub open spec fn status_row_text(row: StatusRowView, node_width: nat, profile_width: nat, show_paths: bool) -> StyledText {
    seq![(Style::Profile, padded(row.0.profile@, profile_width)), (Style::Plain, spaces(1))]
        + status_text(status_of(row.1, row.2), node_width, show_paths)
}

pub open spec fn group_name(g: Seq<StatusRowView>) -> Seq<char> {
    if g.len() > 0 {
        g[0].0.node@
    } else {
        Seq::empty()
    }
}

pub open spec fn status_group_rows(g: Seq<StatusRowView>, node_width: nat, profile_width: nat, show_paths: bool) -> Seq<StyledText> {
    g.map_values(|r: StatusRowView| status_row_text(r, node_width, profile_width, show_paths))
}

pub open spec fn status_groups(rs: Seq<Seq<StatusRowView>>, node_width: nat, profile_width: nat, show_paths: bool) -> Seq<(Seq<char>, Seq<StyledText>)> {
    rs.map_values(|g: Seq<StatusRowView>| (group_name(g), status_group_rows(g, node_width, profile_width, show_paths)))
}

/// The status table: a row for each profile, grouped by node.
pub open spec fn status_results_text(rs: Seq<Seq<StatusRowView>>, show_paths: bool) -> StyledText {
    let node_width = max_width(status_first_nodes(rs));
    let profile_width = max_width(status_profile_names(rs));
    table_text("Status:"@, status_groups(rs, node_width, profile_width, show_paths), node_width)
}

impl StatusArgs {
    /// Shows the status of each profile.
    pub fn display_results(&self, results: &Vec<Vec<(&ProfileInfo, QueryResult, Option<String>)>>) -> (r: Vec<Piece>)
        ensures
            piece_views(r@) == status_results_text(status_results_view(results@), self.show_paths),
    {
        let ghost rs = status_results_view(results@);
        let mut firsts: Vec<String> = Vec::new();
        let mut pnames: Vec<String> = Vec::new();
        let mut i: usize = 0;
        while i < results.len()
            invariant
                i <= results@.len(),
                rs == status_results_view(results@),
                string_views(firsts@) == status_first_nodes(rs.take(i as int)),
                string_views(pnames@) == status_profile_names(rs.take(i as int)),
            decreases results@.len() - i,
        {
            let g = &results[i];
            proof {
                assert(rs.take(i + 1).drop_last() == rs.take(i as int));
                assert(rs.take(i + 1).last() == status_rows_view(g@));
            }
            if g.len() > 0 {
                let ghost before = firsts@;
                firsts.push(g[0].0.node.clone());
                proof {
                    assert(string_views(firsts@) == string_views(before).push(g@[0].0.node@));
                }
            }
            let ghost start = string_views(pnames@);
            let mut k: usize = 0;
            while k < g.len()
                invariant
                    k <= g@.len(),
                    string_views(pnames@) == start + status_rows_view(g@).take(k as int).map_values(|r: StatusRowView| r.0.profile@),
                decreases g@.len() - k,
            {
                let ghost before = pnames@;
                pnames.push(g[k].0.profile.clone());
                proof {
                    assert(string_views(pnames@) == string_views(before).push(g@[k as int].0.profile@));
                    assert(status_rows_view(g@).take(k + 1).map_values(|r: StatusRowView| r.0.profile@) == status_rows_view(g@).take(k as int).map_values(|r: StatusRowView| r.0.profile@).push(g@[k as int].0.profile@));
                }
                k = k + 1;
            }
            proof {
                assert(status_rows_view(g@).take(k as int) == status_rows_view(g@));
            }
            i = i + 1;
        }
        proof {
            assert(rs.take(i as int) == rs);
        }
        let node_width = get_max_width(&firsts);
        let profile_width = get_max_width(&pnames);
        let mut groups: Vec<(String, Vec<Vec<Piece>>)> = Vec::new();
        let mut j: usize = 0;
        while j < results.len()
            invariant
                j <= results@.len(),
                rs == status_results_view(results@),
                groups_view(groups@) == status_groups(rs, node_width as nat, profile_width as nat, self.show_paths).take(j as int),
            decreases results@.len() - j,
        {
            let g = &results[j];
            let ghost gv = status_rows_view(g@);
            let mut rows: Vec<Vec<Piece>> = Vec::new();
            let mut k: usize = 0;
            while k < g.len()
                invariant
                    k <= g@.len(),
                    gv == status_rows_view(g@),
                    rows_view(rows@) == status_group_rows(gv, node_width as nat, profile_width as nat, self.show_paths).take(k as int),
                decreases g@.len() - k,
            {
                let entry = &g[k];
                let status = ProfileStatus::from_paths(&entry.1, match &entry.2 {
                    Some(p) => Some(p.as_str()),
                    None => None,
                });
                let mut row: Vec<Piece> = Vec::new();
                push_piece(&mut row, Style::Profile, pad(entry.0.profile.as_str(), profile_width));
                push_piece(&mut row, Style::Plain, make_spaces(1));
                append_pieces(&mut row, status.display(node_width, self.show_paths));
                let ghost before = rows@;
                rows.push(row);
                proof {
                    assert(rows_view(rows@) == rows_view(before).push(piece_views(row@)));
                    assert(gv[k as int] == (*entry.0, entry.1@, string_opt_view(entry.2)));
                    assert(piece_views(row@) == status_row_text(gv[k as int], node_width as nat, profile_width as nat, self.show_paths));
                    assert(status_group_rows(gv, node_width as nat, profile_width as nat, self.show_paths).take(k + 1) == status_group_rows(gv, node_width as nat, profile_width as nat, self.show_paths).take(k as int).push(status_row_text(gv[k as int], node_width as nat, profile_width as nat, self.show_paths)));
                }
                k = k + 1;
            }
            let name = if g.len() > 0 {
                g[0].0.node.clone()
            } else {
                String::new()
            };
            let ghost before = groups@;
            proof {
                assert(status_group_rows(gv, node_width as nat, profile_width as nat, self.show_paths).take(k as int) == status_group_rows(gv, node_width as nat, profile_width as nat, self.show_paths));
            }
            groups.push((name, rows));
            proof {
                assert(groups_view(groups@) == groups_view(before).push((name@, rows_view(rows@))));
                assert(rs[j as int] == gv);
                assert(status_groups(rs, node_width as nat, profile_width as nat, self.show_paths).take(j + 1) == status_groups(rs, node_width as nat, profile_width as nat, self.show_paths).take(j as int).push((group_name(gv), status_group_rows(gv, node_width as nat, profile_width as nat, self.show_paths))));
            }
            j = j + 1;
        }
        proof {
            assert(status_groups(rs, node_width as nat, profile_width as nat, self.show_paths).take(j as int) == status_groups(rs, node_width as nat, profile_width as nat, self.show_paths));
        }
        table(String::from_str("Status:"), &groups, node_width)
    }
}

}
