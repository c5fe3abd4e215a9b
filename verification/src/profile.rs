//! Information about `deploy-rs` profiles.
//!
//! The `deploy` output of a flake lists nodes, each with its profiles.  Options
//! (`sshUser`, `sshOpts`, `user`, `fastConnection`) may be set for all nodes, for
//! a node, or for a profile; the most specific setting wins, and `sshOpts`
//! accumulate from the least to the most specific level.

use std::cmp::Ordering;

use vstd::prelude::*;

use crate::display::{
    get_max_width, groups_view, join, join_strings, max_width, pad, padded, piece_views,
    push_piece, rows_view, spaces, string_views, table, table_text, white_space, Piece, Style,
    StyledText,
};
use crate::natural_sort::{
    lemma_natural_order_antisymmetric, lemma_natural_order_equal_iff_same,
    lemma_natural_order_transitive, natural_order, NaturalString,
};
use crate::text::{chars_of, str_eq};

verus! {

// ---------------------------------------------------------------------------
// The deploy configuration
// ---------------------------------------------------------------------------

/// Options that can be set at every level of the configuration.
pub struct GenericOptions {
    pub ssh_user: Option<String>,
    pub ssh_opts: Vec<String>,
    pub user: Option<String>,
    pub fast_connection: Option<bool>,
}

/// One profile of a node.
pub struct Profile {
    pub profile_path: Option<String>,
    pub generic: GenericOptions,
}

/// One node: its hostname and its profiles by name.
pub struct Node {
    pub hostname: String,
    pub profiles: Vec<(String, Profile)>,
    pub generic: GenericOptions,
}

/// The whole configuration: the nodes by name.
pub struct Deploy {
    pub nodes: Vec<(String, Node)>,
    pub generic: GenericOptions,
}

pub open spec fn opt_view(o: Option<String>) -> Option<Seq<char>> {
    match o {
        Some(s) => Some(s@),
        None => None,
    }
}

/// Generic options as plain values.
pub struct OptionsView {
    pub ssh_user: Option<Seq<char>>,
    pub ssh_opts: Seq<Seq<char>>,
    pub user: Option<Seq<char>>,
    pub fast_connection: Option<bool>,
}

impl View for GenericOptions {
    type V = OptionsView;

    open spec fn view(&self) -> OptionsView {
        OptionsView {
            ssh_user: opt_view(self.ssh_user),
            ssh_opts: string_views(self.ssh_opts@),
            user: opt_view(self.user),
            fast_connection: self.fast_connection,
        }
    }
}

/// The first of the three settings that is set.
pub open spec fn first_set<T>(a: Option<T>, b: Option<T>, c: Option<T>) -> Option<T> {
    if a is Some {
        a
    } else if b is Some {
        b
    } else {
        c
    }
}

/// The options that apply to a profile, from the settings of the whole
/// configuration, of the node and of the profile.
pub open spec fn combined(deploy: OptionsView, node: OptionsView, profile: OptionsView) -> OptionsView {
    OptionsView {
        ssh_user: first_set(profile.ssh_user, node.ssh_user, deploy.ssh_user),
        ssh_opts: deploy.ssh_opts + node.ssh_opts + profile.ssh_opts,
        user: first_set(profile.user, node.user, deploy.user),
        fast_connection: first_set(
            profile.fast_connection,
            node.fast_connection,
            deploy.fast_connection,
        ),
    }
}

/// The user a profile is activated as: `user`, or else `sshUser`.
pub open spec fn resolved_user(o: OptionsView) -> Option<Seq<char>> {
    if o.user is Some {
        o.user
    } else {
        o.ssh_user
    }
}

/// The profile path: the one given, or the `deploy-rs` default for the root user.
pub open spec fn profile_path_of(
    user: Seq<char>,
    profile_name: Seq<char>,
    explicit: Option<Seq<char>>,
) -> Option<Seq<char>> {
    if explicit is Some {
        explicit
    } else if user == "root"@ {
        if profile_name == "system"@ {
            Some("/nix/var/nix/profiles/system"@)
        } else {
            Some("/nix/var/nix/profiles/per-user/root/"@ + profile_name)
        }
    } else {
        None
    }
}

fn clone_opt(o: &Option<String>) -> (r: Option<String>)
    ensures
        opt_view(r) == opt_view(*o),
{
    match o {
        Some(s) => Some(s.clone()),
        None => None,
    }
}

fn append_clones(out: &mut Vec<String>, more: &Vec<String>)
    ensures
        string_views(final(out)@) == string_views(old(out)@) + string_views(more@),
{
    let ghost start = string_views(out@);
    let mut i: usize = 0;
    while i < more.len()
        invariant
            i <= more@.len(),
            string_views(out@) == start + string_views(more@).take(i as int),
        decreases more@.len() - i,
    {
        let ghost before = out@;
        out.push(more[i].clone());
        proof {
            assert(string_views(out@) == string_views(before).push(more@[i as int]@));
            assert(string_views(more@).take(i + 1) == string_views(more@).take(i as int).push(
                more@[i as int]@,
            ));
        }
        i = i + 1;
    }
    proof {
        assert(string_views(more@).take(more@.len() as int) == string_views(more@));
    }
}

/// The most specific setting wins: a value set for the profile is the combined
/// value, else one set for the node, else the one set for the whole
/// configuration; SSH options of all three levels are kept, deploy-level first.
pub proof fn law_most_specific_option_wins(d: OptionsView, n: OptionsView, p: OptionsView)
    ensures
        p.user is Some ==> combined(d, n, p).user == p.user,
        p.user is None && n.user is Some ==> combined(d, n, p).user == n.user,
        p.user is None && n.user is None ==> combined(d, n, p).user == d.user,
        p.ssh_user is Some ==> combined(d, n, p).ssh_user == p.ssh_user,
        p.ssh_user is None && n.ssh_user is Some ==> combined(d, n, p).ssh_user == n.ssh_user,
        p.ssh_user is None && n.ssh_user is None ==> combined(d, n, p).ssh_user == d.ssh_user,
        p.fast_connection is Some ==> combined(d, n, p).fast_connection == p.fast_connection,
        p.fast_connection is None && n.fast_connection is Some ==> combined(d, n, p).fast_connection
            == n.fast_connection,
        p.fast_connection is None && n.fast_connection is None ==> combined(d, n, p).fast_connection
            == d.fast_connection,
        combined(d, n, p).ssh_opts == d.ssh_opts + n.ssh_opts + p.ssh_opts,
{
}

/// An explicit profile path is used as given, whoever the user is; without one,
/// the root user's `system` profile is the system profile, other root profiles
/// live under `per-user/root`, and no path is known for other users.
pub proof fn law_profile_path(user: Seq<char>, profile_name: Seq<char>, explicit: Option<Seq<char>>)
    ensures
        explicit is Some ==> profile_path_of(user, profile_name, explicit) == explicit,
        explicit is None && user == "root"@ && profile_name == "system"@ ==> profile_path_of(user, profile_name, explicit)
            == Some("/nix/var/nix/profiles/system"@),
        explicit is None && user == "root"@ && profile_name != "system"@ ==> profile_path_of(user, profile_name, explicit)
            == Some("/nix/var/nix/profiles/per-user/root/"@ + profile_name),
        explicit is None && user != "root"@ ==> profile_path_of(user, profile_name, explicit) is None,
{
}

/// The options that apply to a profile (see `combined`).
pub fn combine_generic_options(
    deploy: &GenericOptions,
    node: &GenericOptions,
    profile: &GenericOptions,
) -> (r: GenericOptions)
    ensures
        r@ == combined(deploy@, node@, profile@),
{
    let ssh_user = if profile.ssh_user.is_some() {
        clone_opt(&profile.ssh_user)
    } else if node.ssh_user.is_some() {
        clone_opt(&node.ssh_user)
    } else {
        clone_opt(&deploy.ssh_user)
    };
    let mut ssh_opts: Vec<String> = Vec::new();
    append_clones(&mut ssh_opts, &deploy.ssh_opts);
    append_clones(&mut ssh_opts, &node.ssh_opts);
    append_clones(&mut ssh_opts, &profile.ssh_opts);
    let user = if profile.user.is_some() {
        clone_opt(&profile.user)
    } else if node.user.is_some() {
        clone_opt(&node.user)
    } else {
        clone_opt(&deploy.user)
    };
    let fast_connection = if profile.fast_connection.is_some() {
        profile.fast_connection
    } else if node.fast_connection.is_some() {
        node.fast_connection
    } else {
        deploy.fast_connection
    };
    proof {
        assert(string_views(Seq::<String>::empty()) == Seq::<Seq<char>>::empty());
    }
    GenericOptions { ssh_user, ssh_opts, user, fast_connection }
}

// ---------------------------------------------------------------------------
// Profile information
// ---------------------------------------------------------------------------

/// Everything needed to reach and inspect one deployed profile.
#[derive(Debug)]
pub struct ProfileInfo {
    pub node: String,
    pub profile: String,
    pub hostname: String,
    pub profile_path: String,
    pub user: String,
    pub ssh_user: String,
    pub ssh_opts: Vec<String>,
    pub fast_connection: bool,
}

/// Why a profile's information could not be determined.
#[derive(Debug)]
pub enum ProfileError {
    /// Neither `user` nor `sshUser` is set for the profile.
    NoUser { node: String, profile: String },
    /// No `profilePath` is given and the user is not root, so the path is decided
    /// only when the profile is activated.
    NonRootProfilePath { user: String, node: String, profile: String },
    /// `sshUser` is not set and the current user's name could not be determined.
    Username(whoami::Error),
    /// A node was selected that has no profiles.
    UnknownNode { node: String, known: Vec<String> },
}

/// The description of an error for the user.
pub open spec fn error_text(e: ProfileError) -> Seq<char> {
    match e {
        ProfileError::NoUser { node, profile } =>
            "neither `user` nor `sshUser` is set for profile "@ + profile@ + " of node "@ + node@,
        ProfileError::NonRootProfilePath { user, .. } =>
            "cannot determine profile path for a non-root user "@ + user@,
        ProfileError::Username(_) => "could not determine current user's username"@,
        ProfileError::UnknownNode { node, .. } => "no profiles defined for node "@ + node@,
    }
}

/// What the user can do about an error, or what else is known, where anything is.
pub open spec fn error_hint(e: ProfileError) -> Option<Seq<char>> {
    match e {
        ProfileError::NonRootProfilePath { node, profile, .. } => Some(
            "specify `deploy.nodes."@ + node@ + ".profiles."@ + profile@
                + ".profilePath` explicitly, instead of relying on the deploy-rs default, which is determined dynamically during profile activation"@,
        ),
        ProfileError::UnknownNode { known, .. } => Some(
            "profiles exist for the following nodes: "@ + join(string_views(known@), ", "@),
        ),
        _ => None,
    }
}

impl ProfileError {
    /// The description of the error for the user.
    pub fn message(&self) -> (r: String)
        ensures
            r@ == error_text(*self),
    {
        match self {
            ProfileError::NoUser { node, profile } => {
                let mut m = String::from_str("neither `user` nor `sshUser` is set for profile ");
                m.append(profile.as_str());
                m.append(" of node ");
                m.append(node.as_str());
                m
            },
            ProfileError::NonRootProfilePath { user, .. } => {
                let mut m = String::from_str("cannot determine profile path for a non-root user ");
                m.append(user.as_str());
                m
            },
            ProfileError::Username(_) => String::from_str("could not determine current user's username"),
            ProfileError::UnknownNode { node, .. } => {
                let mut m = String::from_str("no profiles defined for node ");
                m.append(node.as_str());
                m
            },
        }
    }

    /// What the user can do about the error, or what else is known.
    pub fn hint(&self) -> (r: Option<String>)
        ensures
            match error_hint(*self) {
                Some(h) => r is Some && r->0@ == h,
                None => r is None,
            },
    {
        match self {
            ProfileError::NonRootProfilePath { node, profile, .. } => {
                let mut m = String::from_str("specify `deploy.nodes.");
                m.append(node.as_str());
                m.append(".profiles.");
                m.append(profile.as_str());
                m.append(
                    ".profilePath` explicitly, instead of relying on the deploy-rs default, which is determined dynamically during profile activation",
                );
                Some(m)
            },
            ProfileError::UnknownNode { known, .. } => {
                let mut m = String::from_str("profiles exist for the following nodes: ");
                let list = join_strings(known, ", ");
                m.append(list.as_str());
                Some(m)
            },
            _ => None,
        }
    }
}

#[verifier::external_type_specification]
#[verifier::external_body]
pub struct ExWhoamiError(whoami::Error);

/// Calls `whoami::username`, which asks the operating system for the current
/// user's name; the answer depends on the environment, so nothing is stated of it.
#[verifier::external_body]
fn current_username() -> (r: Result<String, whoami::Error>) {
    whoami::username()
}

/// The information of a profile made from its options, given the SSH user
/// (the configured one or, where none is configured, the current user).
pub open spec fn info_fields(
    info: ProfileInfo,
    node_name: Seq<char>,
    profile_name: Seq<char>,
    hostname: Seq<char>,
    o: OptionsView,
    explicit_path: Option<Seq<char>>,
) -> bool {
    &&& resolved_user(o) is Some
    &&& info.node@ == node_name
    &&& info.profile@ == profile_name
    &&& info.hostname@ == hostname
    &&& info.user@ == resolved_user(o)->0
    &&& (o.ssh_user is Some ==> info.ssh_user@ == o.ssh_user->0)
    &&& string_views(info.ssh_opts@) == o.ssh_opts
    &&& info.fast_connection == (o.fast_connection == Some(true))
    &&& profile_path_of(resolved_user(o)->0, profile_name, explicit_path) == Some(info.profile_path@)
}

/// Whether the profile's user and profile path can be determined.
pub open spec fn resolvable(o: OptionsView, profile_name: Seq<char>, explicit_path: Option<Seq<char>>) -> bool {
    &&& resolved_user(o) is Some
    &&& profile_path_of(resolved_user(o)->0, profile_name, explicit_path) is Some
}

fn default_profile_path(user: &str, profile_name: &str) -> (r: Option<String>)
    ensures
        opt_view(r) == profile_path_of(user@, profile_name@, None),
{
    if str_eq(user, "root") {
        if str_eq(profile_name, "system") {
            Some(String::from_str("/nix/var/nix/profiles/system"))
        } else {
            let mut p = String::from_str("/nix/var/nix/profiles/per-user/root/");
            p.append(profile_name);
            Some(p)
        }
    } else {
        None
    }
}

/// Whether the SSH user is the current user's name, which must then be asked of
/// the system: a user is set but no SSH user.
pub open spec fn needs_user_name(o: OptionsView) -> bool {
    resolved_user(o) is Some && o.ssh_user is None
}

/// The SSH user: the one set, or else the current user's name where it was found.
pub open spec fn chosen_ssh_user(o: OptionsView, current_user: Option<Result<String, whoami::Error>>) -> Option<Seq<char>> {
    match o.ssh_user {
        Some(s) => Some(s),
        None => match current_user {
            Some(Ok(name)) => Some(name@),
            _ => None,
        },
    }
}

impl ProfileInfo {
    /// The information of profile `profile_name` of node `node_name`, given the
    /// answer of the lookup of the current user's name where one was made
    /// (`current_user`; it is only read when no SSH user is set).
    pub fn make_with_user_name(
        node_name: &str,
        profile_name: &str,
        deploy: &GenericOptions,
        node: &Node,
        profile: &Profile,
        current_user: Option<Result<String, whoami::Error>>,
    ) -> (r: Result<ProfileInfo, ProfileError>)
        requires
            needs_user_name(combined(deploy@, node.generic@, profile.generic@)) ==> current_user is Some,
        ensures
            ({
                let o = combined(deploy@, node.generic@, profile.generic@);
                let explicit = opt_view(profile.profile_path);
                let ssh = chosen_ssh_user(o, current_user);
                &&& (resolved_user(o) is None ==> (r matches Err(ProfileError::NoUser { node: n, profile: p }) && n@ == node_name@ && p@ == profile_name@))
                &&& (resolved_user(o) is Some && ssh is None ==> (r matches Err(ProfileError::Username(_))))
                &&& (needs_user_name(o) ==> (current_user matches Some(Err(e)) ==> r == Err::<ProfileInfo, ProfileError>(ProfileError::Username(e))))
                &&& (resolved_user(o) is Some && ssh is Some && resolvable(o, profile_name@, explicit) ==> {
                    &&& r is Ok
                    &&& info_fields(r->Ok_0, node_name@, profile_name@, node.hostname@, o, explicit)
                    &&& r->Ok_0.ssh_user@ == ssh->0
                })
                &&& (resolved_user(o) is Some && ssh is Some && !resolvable(o, profile_name@, explicit) ==> {
                    &&& r matches Err(ProfileError::NonRootProfilePath { user: u, node: n, profile: p })
                    &&& u@ == resolved_user(o)->0
                    &&& n@ == node_name@
                    &&& p@ == profile_name@
                })
            }),
    {
        let opts = combine_generic_options(deploy, &node.generic, &profile.generic);
        let user = if opts.user.is_some() {
            clone_opt(&opts.user)
        } else {
            clone_opt(&opts.ssh_user)
        };
        let user = match user {
            Some(u) => u,
            None => {
                return Err(
                    ProfileError::NoUser {
                        node: String::from_str(node_name),
                        profile: String::from_str(profile_name),
                    },
                );
            },
        };
        let ssh_user = match clone_opt(&opts.ssh_user) {
            Some(s) => s,
            None => match current_user {
                Some(Ok(name)) => name,
                Some(Err(e)) => {
                    return Err(ProfileError::Username(e));
                },
                None => {
                    proof {
                        assert(false);
                    }
                    String::new()
                },
            },
        };
        let profile_path = match clone_opt(&profile.profile_path) {
            Some(explicit) => explicit,
            None => match default_profile_path(user.as_str(), profile_name) {
                Some(p) => p,
                None => {
                    return Err(
                        ProfileError::NonRootProfilePath {
                            user,
                            node: String::from_str(node_name),
                            profile: String::from_str(profile_name),
                        },
                    );
                },
            },
        };
        Ok(
            ProfileInfo {
                node: String::from_str(node_name),
                profile: String::from_str(profile_name),
                hostname: node.hostname.clone(),
                profile_path,
                user,
                ssh_user,
                ssh_opts: opts.ssh_opts,
                fast_connection: match opts.fast_connection {
                    Some(b) => b,
                    None => false,
                },
            },
        )
    }

    /// The information of profile `profile_name` of node `node_name`. The current
    /// user's name is asked of the system when a user but no SSH user is set.
    pub fn make(
        node_name: &str,
        profile_name: &str,
        deploy: &GenericOptions,
        node: &Node,
        profile: &Profile,
    ) -> (r: Result<ProfileInfo, ProfileError>)
        ensures
            ({
                let o = combined(deploy@, node.generic@, profile.generic@);
                let explicit = opt_view(profile.profile_path);
                &&& (r is Ok ==> info_fields(r->Ok_0, node_name@, profile_name@, node.hostname@, o, explicit))
                &&& (r matches Err(ProfileError::NoUser { node: n, profile: p }) <==> resolved_user(o) is None)
                &&& (r matches Err(ProfileError::NoUser { node: n, profile: p }) ==> n@ == node_name@ && p@ == profile_name@)
                &&& (r matches Err(ProfileError::NonRootProfilePath { user: u, node: n, profile: p }) ==> {
                    &&& resolved_user(o) is Some
                    &&& !resolvable(o, profile_name@, explicit)
                    &&& u@ == resolved_user(o)->0
                    &&& n@ == node_name@
                    &&& p@ == profile_name@
                })
                &&& (r is Err ==> !(r matches Err(ProfileError::UnknownNode { .. })))
                &&& (r matches Err(ProfileError::Username(_)) ==> resolved_user(o) is Some && o.ssh_user is None)
                &&& (o.ssh_user is Some ==> (r is Ok <==> resolvable(o, profile_name@, explicit)))
                &&& (o.ssh_user is Some && resolved_user(o) is Some && !resolvable(o, profile_name@, explicit) ==> r matches Err(ProfileError::NonRootProfilePath { .. }))
            }),
    {
        let opts = combine_generic_options(deploy, &node.generic, &profile.generic);
        let current_user = if opts.ssh_user.is_none() && opts.user.is_some() {
            Some(current_username())
        } else {
            None
        };
        Self::make_with_user_name(node_name, profile_name, deploy, node, profile, current_user)
    }
}

// ---------------------------------------------------------------------------
// Displaying a profile
// ---------------------------------------------------------------------------

/// How a profile is shown: its name padded to `profile_width`, the user, the SSH
/// user, host and profile path, whether the connection is fast, and the SSH options.
pub open spec fn info_text(info: ProfileInfo, profile_width: nat) -> StyledText {
    seq![
        (Style::Profile, padded(info.profile@, profile_width)),
        (Style::Plain, " as "@),
        (Style::User, info.user@),
        (Style::Plain, " at "@),
        (Style::SshUser, info.ssh_user@),
        (Style::Plain, "@"@),
        (Style::Hostname, info.hostname@),
        (Style::Plain, ":"@),
        (Style::Path, info.profile_path@),
    ] + (if info.fast_connection {
        seq![(Style::Plain, spaces(1)), (Style::Fast, "(fast)"@)]
    } else {
        Seq::empty()
    }) + (if info.ssh_opts@.len() > 0 {
        seq![(Style::Plain, " with "@), (Style::SshOpts, join(string_views(info.ssh_opts@), seq![' ']))]
    } else {
        Seq::empty()
    })
}

/// The `(fast)` marker is shown exactly when the connection is fast, and the
/// SSH options exactly when there are any, each independently of the other.
pub proof fn law_fast_marker_shown(info: ProfileInfo, profile_width: nat)
    ensures
        info.fast_connection <==> info_text(info, profile_width).contains((Style::Fast, "(fast)"@)),
        info.fast_connection <==> exists|i: int| 0 <= i < info_text(info, profile_width).len()
            && (#[trigger] info_text(info, profile_width)[i]).0 == Style::Fast,
        info.ssh_opts@.len() > 0 <==> exists|i: int| 0 <= i < info_text(info, profile_width).len()
            && (#[trigger] info_text(info, profile_width)[i]).0 == Style::SshOpts,
{
    let t = info_text(info, profile_width);
    let fast_part: StyledText = if info.fast_connection {
        seq![(Style::Plain, spaces(1)), (Style::Fast, "(fast)"@)]
    } else {
        Seq::empty()
    };
    let opts_part: StyledText = if info.ssh_opts@.len() > 0 {
        seq![(Style::Plain, " with "@), (Style::SshOpts, join(string_views(info.ssh_opts@), seq![' ']))]
    } else {
        Seq::empty()
    };
    assert(t.len() == 9 + fast_part.len() + opts_part.len());
    assert forall|i: int| 0 <= i < 9 implies (#[trigger] t[i]).0 != Style::Fast && t[i].0 != Style::SshOpts by {}
    if info.fast_connection {
        assert(t[10] == (Style::Fast, "(fast)"@));
        assert(t.contains((Style::Fast, "(fast)"@)));
    } else {
        assert forall|i: int| 0 <= i < t.len() implies (#[trigger] t[i]).0 != Style::Fast by {
            if i >= 9 {
                assert(t[i] == opts_part[i - 9]);
            }
        }
        if t.contains((Style::Fast, "(fast)"@)) {
            let i = choose|i: int| 0 <= i < t.len() && t[i] == (Style::Fast, "(fast)"@);
            assert(t[i].0 != Style::Fast);
        }
    }
    let o: int = fast_part.len() + 9int;
    if info.ssh_opts@.len() > 0 {
        assert(t[o + 1] == opts_part[1]);
        assert(t[o + 1].0 == Style::SshOpts);
    } else {
        assert forall|i: int| 0 <= i < t.len() implies (#[trigger] t[i]).0 != Style::SshOpts by {
            if i >= 9 {
                assert(t[i] == fast_part[i - 9]);
            }
        }
    }
}

// ---------------------------------------------------------------------------
// NIX_SSHOPTS
// ---------------------------------------------------------------------------

/// A character that has a special meaning in a POSIX shell word.
pub open spec fn sh_special(c: char) -> bool {
    c == '\'' || c == '"' || c == '\\' || white_space(c)
}

/// The characters of `a` for use between single quotes: each `'` becomes `'\''`.
pub open spec fn quote_body(a: Seq<char>) -> Seq<char>
    decreases a.len(),
{
    if a.len() == 0 {
        Seq::empty()
    } else {
        (if a[0] == '\'' {
            seq!['\'', '\\', '\'', '\'']
        } else {
            seq![a[0]]
        }) + quote_body(a.drop_first())
    }
}

/// Whether an argument is written between single quotes.
pub open spec fn needs_sh_quotes(a: Seq<char>) -> bool {
    a.len() == 0 || exists|k: int| 0 <= k < a.len() && sh_special(#[trigger] a[k])
}

/// One argument as written in `NIX_SSHOPTS`.
pub open spec fn sh_quoted(a: Seq<char>) -> Seq<char> {
    if needs_sh_quotes(a) {
        seq!['\''] + quote_body(a) + seq!['\'']
    } else {
        a
    }
}

pub open spec fn sh_quoted_all(opts: Seq<Seq<char>>) -> Seq<Seq<char>> {
    opts.map_values(|a: Seq<char>| sh_quoted(a))
}

/// The value of `NIX_SSHOPTS` for the given SSH options.
pub open spec fn nix_sshopts(opts: Seq<Seq<char>>) -> Seq<char> {
    join(sh_quoted_all(opts), seq![' '])
}

fn sh_needs_quoting(c: char) -> (r: bool)
    ensures
        r == sh_special(c),
{
    c == '\'' || c == '"' || c == '\\' || crate::display::is_whitespace(c)
}

fn quote_arg(arg: &str) -> (r: String)
    ensures
        r@ == sh_quoted(arg@),
{
    let cs = chars_of(arg);
    let mut quote = cs.len() == 0;
    let mut i: usize = 0;
    while i < cs.len() && !quote
        invariant
            i <= cs@.len(),
            cs@ == arg@,
            quote <==> (cs@.len() == 0 || exists|k: int| 0 <= k < i && sh_special(#[trigger] cs@[k])),
        decreases cs@.len() - i,
    {
        if sh_needs_quoting(cs[i]) {
            quote = true;
        }
        i = i + 1;
    }
    if !quote {
        proof {
            assert(i == cs@.len());
        }
        return String::from_str(arg);
    }
    let mut out = String::new();
    out.push('\'');
    let mut j: usize = 0;
    proof {
        assert(cs@.skip(0) == cs@);
    }
    while j < cs.len()
        invariant
            j <= cs@.len(),
            cs@ == arg@,
            out@ + quote_body(cs@.skip(j as int)) == seq!['\''] + quote_body(cs@),
        decreases cs@.len() - j,
    {
        let c = cs[j];
        let ghost before = out@;
        proof {
            assert(cs@.skip(j as int)[0] == c);
            assert(cs@.skip(j as int).drop_first() == cs@.skip(j + 1));
        }
        if c == '\'' {
            out.push('\'');
            out.push('\\');
            out.push('\'');
            out.push('\'');
        } else {
            out.push(c);
        }
        proof {
            assert(out@ == before + (if c == '\'' {
                seq!['\'', '\\', '\'', '\'']
            } else {
                seq![c]
            }));
        }
        j = j + 1;
    }
    proof {
        assert(cs@.skip(j as int) == Seq::<char>::empty());
    }
    out.push('\'');
    out
}

impl ProfileInfo {
    /// Shows the profile, its name padded to `profile_width`.
    pub fn display(&self, profile_width: usize) -> (r: Vec<Piece>)
        ensures
            piece_views(r@) == info_text(*self, profile_width as nat),
    {
        let mut out: Vec<Piece> = Vec::new();
        push_piece(&mut out, Style::Profile, pad(self.profile.as_str(), profile_width));
        push_piece(&mut out, Style::Plain, String::from_str(" as "));
        push_piece(&mut out, Style::User, self.user.clone());
        push_piece(&mut out, Style::Plain, String::from_str(" at "));
        push_piece(&mut out, Style::SshUser, self.ssh_user.clone());
        push_piece(&mut out, Style::Plain, String::from_str("@"));
        push_piece(&mut out, Style::Hostname, self.hostname.clone());
        push_piece(&mut out, Style::Plain, String::from_str(":"));
        push_piece(&mut out, Style::Path, self.profile_path.clone());
        let ghost base = piece_views(out@);
        if self.fast_connection {
            push_piece(&mut out, Style::Plain, crate::display::make_spaces(1));
            push_piece(&mut out, Style::Fast, String::from_str("(fast)"));
        }
        let ghost with_fast = piece_views(out@);
        if self.ssh_opts.len() > 0 {
            let sep = " ";
            proof {
                reveal_strlit(" ");
                assert(sep@ =~= seq![' ']);
            }
            push_piece(&mut out, Style::Plain, String::from_str(" with "));
            push_piece(&mut out, Style::SshOpts, join_strings(&self.ssh_opts, sep));
        }
        proof {
            assert(piece_views(out@) == info_text(*self, profile_width as nat));
        }
        out
    }

    /// The value of `NIX_SSHOPTS` that passes this profile's SSH options to Nix.
    pub fn get_nix_sshopts(&self) -> (r: String)
        ensures
            r@ == nix_sshopts(string_views(self.ssh_opts@)),
    {
        let mut quoted: Vec<String> = Vec::new();
        let n = self.ssh_opts.len();
        let mut i: usize = 0;
        while i < n
            invariant
                i <= n,
                n == self.ssh_opts@.len(),
                string_views(quoted@) == sh_quoted_all(string_views(self.ssh_opts@).take(i as int)),
            decreases n - i,
        {
            let q = quote_arg(self.ssh_opts[i].as_str());
            let ghost before = quoted@;
            quoted.push(q);
            proof {
                assert(string_views(quoted@) == string_views(before).push(q@));
                let t = string_views(self.ssh_opts@).take(i + 1);
                assert(t == string_views(self.ssh_opts@).take(i as int).push(self.ssh_opts@[i as int]@));
                assert(sh_quoted_all(t) == sh_quoted_all(string_views(self.ssh_opts@).take(i as int)).push(sh_quoted(self.ssh_opts@[i as int]@)));
            }
            i = i + 1;
        }
        let sep = " ";
        proof {
            reveal_strlit(" ");
            assert(sep@ =~= seq![' ']);
            assert(string_views(self.ssh_opts@).take(n as int) == string_views(self.ssh_opts@));
        }
        join_strings(&quoted, sep)
    }
}

// ---------------------------------------------------------------------------
// Reading NIX_SSHOPTS back as shell words
// ---------------------------------------------------------------------------

/// The state of a reader that splits text into words as a POSIX shell does,
/// with single quotes and backslash escapes (double quotes are not read).
pub enum Words {
    Reading {
        words: Seq<Seq<char>>,
        current: Seq<char>,
        in_word: bool,
        quoted: bool,
        escaped: bool,
    },
    Failed,
}

pub open spec fn words_state(
    words: Seq<Seq<char>>,
    current: Seq<char>,
    in_word: bool,
    quoted: bool,
    escaped: bool,
) -> Words {
    Words::Reading { words, current, in_word, quoted, escaped }
}

/// A character that separates words.
pub open spec fn shell_blank(c: char) -> bool {
    c == ' ' || c == '\t' || c == '\n'
}

pub open spec fn words_step(st: Words, c: char) -> Words {
    match st {
        Words::Failed => Words::Failed,
        Words::Reading { words, current, in_word, quoted, escaped } => {
            if escaped {
                words_state(words, current.push(c), true, quoted, false)
            } else if quoted {
                if c == '\'' {
                    words_state(words, current, in_word, false, false)
                } else {
                    words_state(words, current.push(c), in_word, true, false)
                }
            } else if c == '\'' {
                words_state(words, current, true, true, false)
            } else if c == '\\' {
                words_state(words, current, true, false, true)
            } else if c == '"' {
                Words::Failed
            } else if shell_blank(c) {
                if in_word {
                    words_state(words.push(current), Seq::empty(), false, false, false)
                } else {
                    st
                }
            } else {
                words_state(words, current.push(c), true, false, false)
            }
        },
    }
}

pub open spec fn words_run(st: Words, s: Seq<char>) -> Words
    decreases s.len(),
{
    if s.len() == 0 {
        st
    } else {
        words_run(words_step(st, s[0]), s.drop_first())
    }
}

/// The words of `s`, if it is read to the end without an open quote or escape.
pub open spec fn shell_words(s: Seq<char>) -> Option<Seq<Seq<char>>> {
    match words_run(words_state(Seq::empty(), Seq::empty(), false, false, false), s) {
        Words::Failed => None,
        Words::Reading { words, current, in_word, quoted, escaped } => {
            if quoted || escaped {
                None
            } else if in_word {
                Some(words.push(current))
            } else {
                Some(words)
            }
        },
    }
}

proof fn lemma_words_concat(st: Words, a: Seq<char>, b: Seq<char>)
    ensures
        words_run(st, a + b) == words_run(words_run(st, a), b),
    decreases a.len(),
{
    if a.len() > 0 {
        assert((a + b).drop_first() == a.drop_first() + b);
        lemma_words_concat(words_step(st, a[0]), a.drop_first(), b);
    }
}

proof fn lemma_words_one(st: Words, c: char)
    ensures
        words_run(st, seq![c]) == words_step(st, c),
{
    assert(seq![c].drop_first() =~= Seq::<char>::empty());
    assert(words_run(words_step(st, c), Seq::<char>::empty()) == words_step(st, c));
}

proof fn lemma_words_plain(w: Seq<Seq<char>>, cur: Seq<char>, in_word: bool, a: Seq<char>)
    requires
        forall|k: int| 0 <= k < a.len() ==> !sh_special(#[trigger] a[k]),
    ensures
        words_run(words_state(w, cur, in_word, false, false), a) == words_state(
            w,
            cur + a,
            in_word || a.len() > 0,
            false,
            false,
        ),
    decreases a.len(),
{
    if a.len() > 0 {
        assert(!sh_special(a[0]));
        assert forall|k: int| 0 <= k < a.drop_first().len() implies !sh_special(
            #[trigger] a.drop_first()[k],
        ) by {
            assert(a.drop_first()[k] == a[k + 1]);
        }
        lemma_words_plain(w, cur.push(a[0]), true, a.drop_first());
        assert(cur.push(a[0]) + a.drop_first() == cur + a);
    } else {
        assert(cur + a == cur);
    }
}

proof fn lemma_words_quote_body(w: Seq<Seq<char>>, cur: Seq<char>, a: Seq<char>)
    ensures
        words_run(words_state(w, cur, true, true, false), quote_body(a)) == words_state(
            w,
            cur + a,
            true,
            true,
            false,
        ),
    decreases a.len(),
{
    if a.len() == 0 {
        assert(cur + a == cur);
        assert(quote_body(a) =~= Seq::<char>::empty());
    } else {
        let c = a[0];
        let st = words_state(w, cur, true, true, false);
        let head = if c == '\'' {
            seq!['\'', '\\', '\'', '\'']
        } else {
            seq![c]
        };
        assert(quote_body(a) == head + quote_body(a.drop_first()));
        lemma_words_concat(st, head, quote_body(a.drop_first()));
        if c == '\'' {
            let s1 = words_state(w, cur, true, false, false);
            let s2 = words_state(w, cur, true, false, true);
            let s3 = words_state(w, cur.push(c), true, false, false);
            let s4 = words_state(w, cur.push(c), true, true, false);
            lemma_words_one(st, '\'');
            lemma_words_one(s1, '\\');
            lemma_words_one(s2, '\'');
            lemma_words_one(s3, '\'');
            assert(head == seq!['\''] + (seq!['\\'] + (seq!['\''] + seq!['\''])));
            lemma_words_concat(st, seq!['\''], seq!['\\'] + (seq!['\''] + seq!['\'']));
            lemma_words_concat(s1, seq!['\\'], seq!['\''] + seq!['\'']);
            lemma_words_concat(s2, seq!['\''], seq!['\'']);
            assert(words_run(st, head) == s4);
        } else {
            lemma_words_one(st, c);
        }
        lemma_words_quote_body(w, cur.push(c), a.drop_first());
        assert(cur.push(c) + a.drop_first() == cur + a);
    }
}

proof fn lemma_words_word(w: Seq<Seq<char>>, a: Seq<char>)
    ensures
        words_run(words_state(w, Seq::empty(), false, false, false), sh_quoted(a)) == words_state(
            w,
            a,
            true,
            false,
            false,
        ),
{
    let st0 = words_state(w, Seq::empty(), false, false, false);
    if needs_sh_quotes(a) {
        lemma_words_concat(st0, seq!['\''] + quote_body(a), seq!['\'']);
        lemma_words_concat(st0, seq!['\''], quote_body(a));
        lemma_words_one(st0, '\'');
        lemma_words_quote_body(w, Seq::empty(), a);
        assert(Seq::<char>::empty() + a == a);
        lemma_words_one(words_state(w, a, true, true, false), '\'');
    } else {
        lemma_words_plain(w, Seq::empty(), false, a);
        assert(Seq::<char>::empty() + a == a);
    }
}

/// `NIX_SSHOPTS` read as shell words (quotes and backslashes, as Nix 2.26 and
/// later read it) gives back exactly the SSH options.
pub proof fn law_nix_sshopts_read_back(opts: Seq<Seq<char>>)
    ensures
        shell_words(nix_sshopts(opts)) == Some(opts),
{
    let st0 = words_state(Seq::empty(), Seq::empty(), false, false, false);
    if opts.len() == 0 {
        assert(sh_quoted_all(opts) =~= Seq::<Seq<char>>::empty());
    } else {
        lemma_words_prefix(opts, opts.len() as int);
        assert(opts.take(opts.len() as int - 1).push(opts[opts.len() as int - 1]) =~= opts);
        assert(opts.take(opts.len() as int) =~= opts);
    }
}

proof fn lemma_words_prefix(opts: Seq<Seq<char>>, k: int)
    requires
        1 <= k <= opts.len(),
    ensures
        words_run(
            words_state(Seq::empty(), Seq::empty(), false, false, false),
            join(sh_quoted_all(opts.take(k)), seq![' ']),
        ) == words_state(opts.take(k - 1), opts[k - 1], true, false, false),
    decreases k,
{
    let st0 = words_state(Seq::empty(), Seq::empty(), false, false, false);
    let qs = sh_quoted_all(opts.take(k));
    if k == 1 {
        assert(qs.len() == 1);
        assert(join(qs, seq![' ']) == qs[0]);
        lemma_words_word(Seq::empty(), opts[0]);
        assert(opts.take(0) =~= Seq::<Seq<char>>::empty());
    } else {
        lemma_words_prefix(opts, k - 1);
        assert(qs.drop_last() =~= sh_quoted_all(opts.take(k - 1)));
        let prev = join(sh_quoted_all(opts.take(k - 1)), seq![' ']);
        assert(join(qs, seq![' ']) == prev + seq![' '] + sh_quoted(opts[k - 1]));
        lemma_words_concat(st0, prev + seq![' '], sh_quoted(opts[k - 1]));
        lemma_words_concat(st0, prev, seq![' ']);
        lemma_words_one(words_state(opts.take(k - 2), opts[k - 2], true, false, false), ' ');
        assert(opts.take(k - 2).push(opts[k - 2]) =~= opts.take(k - 1));
        lemma_words_word(opts.take(k - 1), opts[k - 1]);
    }
}

/// Options without special characters are passed as they are, separated by spaces,
/// so that readers that only split at white space read them correctly too.
pub proof fn law_nix_sshopts_plain(opts: Seq<Seq<char>>)
    requires
        forall|i: int| 0 <= i < opts.len() ==> !needs_sh_quotes(#[trigger] opts[i]),
    ensures
        nix_sshopts(opts) == join(opts, seq![' ']),
{
    assert(sh_quoted_all(opts) =~= opts);
}

/// An option that is not empty and holds no single quote, double quote,
/// backslash or white space is passed as it is; such options are separated by
/// single spaces.
pub proof fn law_nix_sshopts_unquoted(opts: Seq<Seq<char>>)
    requires
        forall|i: int| 0 <= i < opts.len() ==> (#[trigger] opts[i]).len() > 0,
        forall|i: int, k: int| 0 <= i < opts.len() && 0 <= k < opts[i].len() ==> {
            let c = #[trigger] opts[i][k];
            c != '\'' && c != '"' && c != '\\' && !white_space(c)
        },
    ensures
        nix_sshopts(opts) == join(opts, seq![' ']),
{
    assert forall|i: int| 0 <= i < opts.len() implies !needs_sh_quotes(#[trigger] opts[i]) by {
        assert forall|k: int| 0 <= k < opts[i].len() implies !sh_special(#[trigger] opts[i][k]) by {
            let c = opts[i][k];
            assert(c != '\'' && c != '"' && c != '\\' && !white_space(c));
        }
    }
    law_nix_sshopts_plain(opts);
}

// ---------------------------------------------------------------------------
// Collections kept in natural order of their keys
// ---------------------------------------------------------------------------

/// The keys of entries.
pub open spec fn keys_of<T>(v: Seq<(NaturalString<'static>, T)>) -> Seq<Seq<char>> {
    v.map_values(|e: (NaturalString<'static>, T)| e.0@)
}

/// Keys in strictly increasing natural order (so no key occurs twice).
pub open spec fn strictly_sorted(ks: Seq<Seq<char>>) -> bool {
    forall|i: int, j: int| 0 <= i < j < ks.len() ==> natural_order(#[trigger] ks[i], #[trigger] ks[j]) == Ordering::Less
}

/// Element `i` of `s`.
pub open spec fn at<T>(s: Seq<T>, i: usize) -> T {
    s[i as int]
}

/// `s` with `a` inserted before position `i`.
pub open spec fn inserted<T>(s: Seq<T>, i: usize, a: T) -> Seq<T> {
    s.insert(i as int, a)
}

proof fn lemma_insert_multiset<T>(s: Seq<T>, i: usize, a: T)
    requires
        i <= s.len(),
    ensures
        inserted(s, i, a).to_multiset() == s.to_multiset().insert(a),
{
    vstd::seq_lib::to_multiset_insert(s, i as int, a);
}

proof fn lemma_keys_insert<T>(v: Seq<(NaturalString<'static>, T)>, i: usize, e: (NaturalString<'static>, T))
    requires
        i <= v.len(),
    ensures
        keys_of(inserted(v, i, e)) == inserted(keys_of(v), i, e.0@),
        forall|k: int| 0 <= k < i ==> #[trigger] inserted(keys_of(v), i, e.0@)[k] == keys_of(v)[k],
        forall|k: int| i < k <= v.len() ==> #[trigger] inserted(keys_of(v), i, e.0@)[k] == keys_of(v)[k - 1],
        inserted(keys_of(v), i, e.0@)[i as int] == e.0@,
        inserted(keys_of(v), i, e.0@).len() == v.len() + 1,
{
    assert(keys_of(v.insert(i as int, e)) =~= keys_of(v).insert(i as int, e.0@));
}

/// Inserts an entry whose key is new at its place in natural order.
fn insert_sorted<T>(v: &mut Vec<(NaturalString<'static>, T)>, e: (NaturalString<'static>, T))
    requires
        strictly_sorted(keys_of(old(v)@)),
        !keys_of(old(v)@).contains(e.0@),
    ensures
        strictly_sorted(keys_of(final(v)@)),
        final(v)@.to_multiset() == old(v)@.to_multiset().insert(e),
        keys_of(final(v)@).to_set() == keys_of(old(v)@).to_set().insert(e.0@),
{
    let ghost ks = keys_of(v@);
    let mut pos: usize = 0;
    while pos < v.len()
        invariant
            pos <= v@.len(),
            v@ == old(v)@,
            ks == keys_of(v@),
            forall|m: int| 0 <= m < pos ==> natural_order(#[trigger] ks[m], e.0@) == Ordering::Less,
        ensures
            pos <= v@.len(),
            v@ == old(v)@,
            forall|m: int| 0 <= m < pos ==> natural_order(#[trigger] ks[m], e.0@) == Ordering::Less,
            pos < v@.len() ==> natural_order(at(ks, pos), e.0@) != Ordering::Less,
        decreases v@.len() - pos,
    {
        match v[pos].0.cmp(&e.0) {
            Ordering::Less => {},
            _ => {
                break;
            },
        }
        pos = pos + 1;
    }
    proof {
        if pos < ks.len() {
            lemma_natural_order_equal_iff_same(at(ks, pos), e.0@);
            assert(ks.contains(at(ks, pos)));
            lemma_natural_order_antisymmetric(at(ks, pos), e.0@);
            assert(natural_order(e.0@, at(ks, pos)) == Ordering::Less);
        }
        assert forall|m: int| 0 <= m < pos implies natural_order(e.0@, #[trigger] ks[m]) == Ordering::Greater by {
            lemma_natural_order_antisymmetric(ks[m], e.0@);
        }
        assert forall|m: int| pos < m < ks.len() implies natural_order(e.0@, #[trigger] ks[m]) == Ordering::Less by {
            lemma_natural_order_transitive(e.0@, at(ks, pos), ks[m]);
        }
        lemma_insert_multiset(v@, pos, e);
        lemma_keys_insert(v@, pos, e);
    }
    let ghost before = v@;
    v.insert(pos, e);
    proof {
        let nks = keys_of(v@);
        assert(nks == inserted(ks, pos, e.0@));
        assert forall|i: int, j: int| 0 <= i < j < nks.len() implies natural_order(#[trigger] nks[i], #[trigger] nks[j]) == Ordering::Less by {
            if i < pos && j < pos {
            } else if i < pos && j == pos {
                lemma_natural_order_antisymmetric(e.0@, ks[i]);
            } else if i < pos && j > pos {
                assert(nks[j] == ks[j - 1]);
            } else if i == pos {
                assert(nks[j] == ks[j - 1]);
            } else {
                assert(nks[i] == ks[i - 1]);
                assert(nks[j] == ks[j - 1]);
            }
        }
        assert(nks.to_set() =~= ks.to_set().insert(e.0@)) by {
            assert forall|x: Seq<char>| nks.to_set().contains(x) <==> ks.to_set().insert(e.0@).contains(x) by {
                if nks.contains(x) {
                    let k = choose|k: int| 0 <= k < nks.len() && nks[k] == x;
                    if k < pos {
                        assert(ks[k] == x);
                    } else if k > pos {
                        assert(ks[k - 1] == x);
                    }
                }
                if ks.contains(x) {
                    let k = choose|k: int| 0 <= k < ks.len() && ks[k] == x;
                    if k < pos {
                        assert(nks[k] == x);
                    } else {
                        assert(nks[k + 1] == x);
                    }
                }
                if x == e.0@ {
                    assert(at(nks, pos) == x);
                }
            }
        }
    }
}

/// Entries with equal multisets hold the same elements.
proof fn lemma_same_elements<T>(a: Seq<T>, b: Seq<T>, x: T)
    requires
        a.to_multiset() == b.to_multiset(),
    ensures
        a.contains(x) <==> b.contains(x),
{
    vstd::seq_lib::to_multiset_contains(a, x);
    vstd::seq_lib::to_multiset_contains(b, x);
}

// ---------------------------------------------------------------------------
// All profiles, grouped by node
// ---------------------------------------------------------------------------

/// The profiles of one node, by profile name, in natural order of the names.
#[derive(Debug)]
pub struct NodeInfo {
    profiles: Vec<(NaturalString<'static>, ProfileInfo)>,
}

/// The profiles of all nodes, by node name, in natural order of the names.
#[derive(Debug)]
pub struct Profiles {
    nodes: Vec<(NaturalString<'static>, NodeInfo)>,
}

/// A node's profiles as plain values: each profile's name and information.
pub type NodeView = Seq<(Seq<char>, ProfileInfo)>;

/// All profiles as plain values: each node's name and profiles.
pub type ProfilesView = Seq<(Seq<char>, NodeView)>;

impl View for NodeInfo {
    type V = NodeView;

    closed spec fn view(&self) -> NodeView {
        self.profiles@.map_values(|e: (NaturalString<'static>, ProfileInfo)| (e.0@, e.1))
    }
}

impl View for Profiles {
    type V = ProfilesView;

    closed spec fn view(&self) -> ProfilesView {
        self.nodes@.map_values(|e: (NaturalString<'static>, NodeInfo)| (e.0@, e.1@))
    }
}

/// The names of named entries.
pub open spec fn names<T>(s: Seq<(Seq<char>, T)>) -> Seq<Seq<char>> {
    s.map_values(|e: (Seq<char>, T)| e.0)
}

/// A node's profiles are in natural order of their names and each knows its node and name.
pub open spec fn node_wf(node_name: Seq<char>, n: NodeView) -> bool {
    &&& strictly_sorted(names(n))
    &&& forall|i: int| 0 <= i < n.len() ==> (#[trigger] n[i]).1.node@ == node_name && n[i].1.profile@ == n[i].0
}

impl Profiles {
    pub open spec fn wf(&self) -> bool {
        &&& strictly_sorted(names(self@))
        &&& forall|i: int| 0 <= i < self@.len() ==> node_wf((#[trigger] self@[i]).0, self@[i].1)
    }
}

/// No two nodes, and no two profiles of a node, have the same name.
pub open spec fn deploy_wf(d: Deploy) -> bool {
    &&& forall|i: int, j: int| 0 <= i < j < d.nodes@.len() ==> (#[trigger] d.nodes@[i]).0@ != (#[trigger] d.nodes@[j]).0@
    &&& forall|n: int, i: int, j: int| 0 <= n < d.nodes@.len() && 0 <= i < j < d.nodes@[n].1.profiles@.len() ==>
        (#[trigger] d.nodes@[n].1.profiles@[i]).0@ != (#[trigger] d.nodes@[n].1.profiles@[j]).0@
}

/// The options that apply to profile `q` of node `j`.
pub open spec fn options_at(d: Deploy, j: int, q: int) -> OptionsView {
    combined(d.generic@, d.nodes@[j].1.generic@, d.nodes@[j].1.profiles@[q].1.generic@)
}

pub open spec fn profile_name_at(d: Deploy, j: int, q: int) -> Seq<char> {
    d.nodes@[j].1.profiles@[q].0@
}

pub open spec fn explicit_path_at(d: Deploy, j: int, q: int) -> Option<Seq<char>> {
    opt_view(d.nodes@[j].1.profiles@[q].1.profile_path)
}

pub open spec fn profile_at(d: Deploy, j: int, q: int) -> bool {
    0 <= j < d.nodes@.len() && 0 <= q < d.nodes@[j].1.profiles@.len()
}

/// A profile entry made from profile `q` of node `j`.
pub open spec fn info_from(name: Seq<char>, info: ProfileInfo, d: Deploy, j: int, q: int) -> bool {
    &&& name == profile_name_at(d, j, q)
    &&& info_fields(
        info,
        d.nodes@[j].0@,
        profile_name_at(d, j, q),
        d.nodes@[j].1.hostname@,
        options_at(d, j, q),
        explicit_path_at(d, j, q),
    )
}

/// Entry `m` is made from one of the profiles of node `j`.
pub open spec fn entry_made(n: NodeView, m: int, d: Deploy, j: int) -> bool {
    exists|q: int| 0 <= q < d.nodes@[j].1.profiles@.len() && #[trigger] info_from(n[m].0, n[m].1, d, j, q)
}

/// Profile `q` of node `j` has an entry.
pub open spec fn profile_listed(n: NodeView, d: Deploy, j: int, q: int) -> bool {
    exists|m: int| 0 <= m < n.len() && #[trigger] info_from(n[m].0, n[m].1, d, j, q)
}

/// A node entry made from node `j`: one profile entry for each of its profiles.
pub open spec fn node_from(name: Seq<char>, n: NodeView, d: Deploy, j: int) -> bool {
    &&& name == d.nodes@[j].0@
    &&& forall|m: int| 0 <= m < n.len() ==> #[trigger] entry_made(n, m, d, j)
    &&& forall|q: int| 0 <= q < d.nodes@[j].1.profiles@.len() ==> #[trigger] profile_listed(n, d, j, q)
}

/// Entry `i` is made from one of the nodes.
pub open spec fn node_entry_made(p: ProfilesView, i: int, d: Deploy) -> bool {
    exists|j: int| 0 <= j < d.nodes@.len() && #[trigger] node_from(p[i].0, p[i].1, d, j)
}

/// Node `j` has an entry.
pub open spec fn node_listed(p: ProfilesView, d: Deploy, j: int) -> bool {
    exists|i: int| 0 <= i < p.len() && #[trigger] node_from(p[i].0, p[i].1, d, j)
}

/// The entries are made from the configuration: one node entry for each node.
pub open spec fn profiles_from(p: ProfilesView, d: Deploy) -> bool {
    &&& forall|i: int| 0 <= i < p.len() ==> #[trigger] node_entry_made(p, i, d)
    &&& forall|j: int| 0 <= j < d.nodes@.len() ==> #[trigger] node_listed(p, d, j)
}

/// Every profile has a user, an SSH user and a profile path.
pub open spec fn settled(d: Deploy) -> bool {
    forall|j: int, q: int| #[trigger] profile_at(d, j, q) ==> options_at(d, j, q).ssh_user is Some && resolvable(options_at(d, j, q), profile_name_at(d, j, q), explicit_path_at(d, j, q))
}

/// Whether the user and the profile path of profile `q` of node `j` can be determined.
pub open spec fn resolvable_at(d: Deploy, j: int, q: int) -> bool {
    resolvable(options_at(d, j, q), profile_name_at(d, j, q), explicit_path_at(d, j, q))
}

/// Profile `q` of node `j` gives error `e`: a user is missing, the profile path
/// depends on a non-root user, or the SSH user had to be asked of the system.
pub open spec fn fails_with(d: Deploy, j: int, q: int, e: ProfileError) -> bool {
    let o = options_at(d, j, q);
    match e {
        ProfileError::NoUser { node, profile } => {
            &&& node@ == d.nodes@[j].0@
            &&& profile@ == profile_name_at(d, j, q)
            &&& resolved_user(o) is None
        },
        ProfileError::NonRootProfilePath { user, node, profile } => {
            &&& node@ == d.nodes@[j].0@
            &&& profile@ == profile_name_at(d, j, q)
            &&& resolved_user(o) == Some(user@)
            &&& !resolvable_at(d, j, q)
        },
        ProfileError::Username(_) => resolved_user(o) is Some && o.ssh_user is None,
        ProfileError::UnknownNode { .. } => false,
    }
}

/// Every profile that comes before profile `q` of node `j` (nodes in order, and
/// the profiles of a node in order) can be resolved.
pub open spec fn resolvable_before(d: Deploy, j: int, q: int) -> bool {
    forall|j2: int, q2: int| #[trigger] profile_at(d, j2, q2) && (j2 < j || (j2 == j && q2 < q)) ==> resolvable_at(d, j2, q2)
}

proof fn lemma_node_view(n: NodeInfo)
    ensures
        names(n@) == keys_of(n.profiles@),
        n@.len() == n.profiles@.len(),
        forall|i: int| 0 <= i < n@.len() ==> #[trigger] n@[i] == (n.profiles@[i].0@, n.profiles@[i].1),
{
    assert(names(n@) =~= keys_of(n.profiles@));
}

proof fn lemma_profiles_view(p: Profiles)
    ensures
        names(p@) == keys_of(p.nodes@),
        p@.len() == p.nodes@.len(),
        forall|i: int| 0 <= i < p@.len() ==> #[trigger] p@[i] == (p.nodes@[i].0@, p.nodes@[i].1@),
{
    assert(names(p@) =~= keys_of(p.nodes@));
}

/// The names of the first `q` profiles of node `j`.
pub open spec fn profile_names_upto(d: Deploy, j: int, q: int) -> Set<Seq<char>> {
    Set::new(|x: Seq<char>| exists|k: int| 0 <= k < q && profile_name_at(d, j, k) == x)
}

pub open spec fn node_names_upto(d: Deploy, j: int) -> Set<Seq<char>> {
    Set::new(|x: Seq<char>| exists|k: int| 0 <= k < j && d.nodes@[k].0@ == x)
}

impl NodeInfo {
    /// Builds the profile entries of node `j`.
    fn make(deploy: &Deploy, j: usize) -> (r: Result<NodeInfo, ProfileError>)
        requires
            deploy_wf(*deploy),
            j < deploy.nodes@.len(),
        ensures
            r is Ok ==> node_wf(deploy.nodes@[j as int].0@, r->Ok_0@),
            r is Ok ==> node_from(deploy.nodes@[j as int].0@, r->Ok_0@, *deploy, j as int),
            r matches Err(e) ==> exists|q: int| #[trigger] profile_at(*deploy, j as int, q) && fails_with(*deploy, j as int, q, e)
                && forall|q2: int| 0 <= q2 < q ==> #[trigger] resolvable_at(*deploy, j as int, q2),
            r is Ok ==> forall|q: int| #[trigger] profile_at(*deploy, j as int, q) ==> resolvable_at(*deploy, j as int, q),
            (forall|q: int| #[trigger] profile_at(*deploy, j as int, q) ==> options_at(*deploy, j as int, q).ssh_user is Some && resolvable(options_at(*deploy, j as int, q), profile_name_at(*deploy, j as int, q), explicit_path_at(*deploy, j as int, q))) ==> r is Ok,
    {
        let node_name = &deploy.nodes[j].0;
        let node = &deploy.nodes[j].1;
        let ghost d = *deploy;
        let ghost jj = j as int;
        let mut profiles: Vec<(NaturalString<'static>, ProfileInfo)> = Vec::new();
        let ghost mut built: Seq<(NaturalString<'static>, ProfileInfo)> = Seq::empty();
        let mut q: usize = 0;
        proof {
            assert(keys_of(profiles@).to_set() =~= profile_names_upto(d, jj, 0));
        }
        while q < node.profiles.len()
            invariant
                deploy_wf(d),
                d == *deploy,
                jj == j,
                0 <= jj < d.nodes@.len(),
                node == d.nodes@[jj].1,
                node_name == d.nodes@[jj].0,
                q <= node.profiles@.len(),
                built.len() == q,
                profiles@.to_multiset() == built.to_multiset(),
                strictly_sorted(keys_of(profiles@)),
                keys_of(profiles@).to_set() == profile_names_upto(d, jj, q as int),
                forall|m: int| 0 <= m < q ==> #[trigger] info_from(built[m].0@, built[m].1, d, jj, m),
            decreases node.profiles@.len() - q,
        {
            let pname = &node.profiles[q].0;
            let profile = &node.profiles[q].1;
            let info = match ProfileInfo::make(node_name.as_str(), pname.as_str(), &deploy.generic, node, profile) {
                Ok(info) => info,
                Err(e) => {
                    proof {
                        assert(profile_at(d, jj, q as int));
                        assert(fails_with(d, jj, q as int, e));
                        assert forall|q2: int| 0 <= q2 < q implies #[trigger] resolvable_at(d, jj, q2) by {
                            assert(info_from(built[q2].0@, built[q2].1, d, jj, q2));
                        }
                    }
                    return Err(e);
                },
            };
            let key = NaturalString::owned(pname.clone());
            proof {
                if keys_of(profiles@).contains(key@) {
                    assert(keys_of(profiles@).to_set().contains(key@));
                    let k = choose|k: int| 0 <= k < q && profile_name_at(d, jj, k) == key@;
                    assert(d.nodes@[jj].1.profiles@[k].0@ != d.nodes@[jj].1.profiles@[q as int].0@);
                }
            }
            let entry = (key, info);
            let ghost e = entry;
            insert_sorted(&mut profiles, entry);
            proof {
                let old_built = built;
                built = old_built.push(e);
                vstd::seq_lib::to_multiset_build(old_built, e);
                assert(info_from(built[q as int].0@, built[q as int].1, d, jj, q as int));
                assert(keys_of(profiles@).to_set() =~= profile_names_upto(d, jj, q + 1)) by {
                    assert forall|x: Seq<char>| profile_names_upto(d, jj, q + 1).contains(x) <==> profile_names_upto(d, jj, q as int).insert(key@).contains(x) by {
                        if profile_names_upto(d, jj, q + 1).contains(x) {
                            let k = choose|k: int| 0 <= k < q + 1 && profile_name_at(d, jj, k) == x;
                            if k < q {
                                assert(profile_names_upto(d, jj, q as int).contains(x));
                            }
                        }
                        if profile_names_upto(d, jj, q as int).contains(x) {
                            let k = choose|k: int| 0 <= k < q && profile_name_at(d, jj, k) == x;
                            assert(0 <= k < q + 1);
                        }
                    }
                }
                assert forall|m: int| 0 <= m < q + 1 implies #[trigger] info_from(built[m].0@, built[m].1, d, jj, m) by {
                    if m < q {
                        assert(built[m] == old_built[m]);
                    }
                }
            }
            q = q + 1;
        }
        let r = NodeInfo { profiles };
        proof {
            assert forall|qq: int| #[trigger] profile_at(d, jj, qq) implies resolvable_at(d, jj, qq) by {
                assert(info_from(built[qq].0@, built[qq].1, d, jj, qq));
            }
            lemma_node_view(r);
            let v = r@;
            assert forall|i: int| 0 <= i < v.len() implies (#[trigger] v[i]).1.node@ == d.nodes@[jj].0@ && v[i].1.profile@ == v[i].0 by {
                lemma_same_elements(r.profiles@, built, r.profiles@[i]);
                assert(r.profiles@.contains(r.profiles@[i]));
                let m = choose|m: int| 0 <= m < built.len() && built[m] == r.profiles@[i];
                assert(info_from(built[m].0@, built[m].1, d, jj, m));
            }
            assert forall|i: int| 0 <= i < v.len() implies #[trigger] entry_made(v, i, d, jj) by {
                lemma_same_elements(r.profiles@, built, r.profiles@[i]);
                assert(r.profiles@.contains(r.profiles@[i]));
                let m = choose|m: int| 0 <= m < built.len() && built[m] == r.profiles@[i];
                assert(v[i] == (r.profiles@[i].0@, r.profiles@[i].1));
                assert(info_from(built[m].0@, built[m].1, d, jj, m));
                assert(info_from(v[i].0, v[i].1, d, jj, m));
            }
            assert forall|qq: int| 0 <= qq < d.nodes@[jj].1.profiles@.len() implies #[trigger] profile_listed(v, d, jj, qq) by {
                assert(info_from(built[qq].0@, built[qq].1, d, jj, qq));
                lemma_same_elements(r.profiles@, built, built[qq]);
                assert(built.contains(built[qq]));
                let i = choose|i: int| 0 <= i < r.profiles@.len() && r.profiles@[i] == built[qq];
                assert(v[i] == (built[qq].0@, built[qq].1));
            }
        }
        Ok(r)
    }
}

impl Profiles {
    /// The profiles of all nodes of the configuration. The profiles are taken in
    /// the order of the lists, and the first that cannot be made gives the error.
    #[verifier::spinoff_prover]
    pub fn from_deploy(deploy: &Deploy) -> (r: Result<Profiles, ProfileError>)
        requires
            deploy_wf(*deploy),
        ensures
            r is Ok ==> r->Ok_0.wf() && profiles_from(r->Ok_0@, *deploy),
            r matches Err(e) ==> exists|j: int, q: int| #[trigger] profile_at(*deploy, j, q) && fails_with(*deploy, j, q, e) && resolvable_before(*deploy, j, q),
            settled(*deploy) ==> r is Ok,
            r is Ok ==> forall|j: int, q: int| #[trigger] profile_at(*deploy, j, q) ==> resolvable(options_at(*deploy, j, q), profile_name_at(*deploy, j, q), explicit_path_at(*deploy, j, q)),
    {
        let ghost d = *deploy;
        let mut nodes: Vec<(NaturalString<'static>, NodeInfo)> = Vec::new();
        let ghost mut built: Seq<(NaturalString<'static>, NodeInfo)> = Seq::empty();
        let mut j: usize = 0;
        proof {
            assert(keys_of(nodes@).to_set() =~= node_names_upto(d, 0));
        }
        while j < deploy.nodes.len()
            invariant
                deploy_wf(d),
                d == *deploy,
                j <= d.nodes@.len(),
                built.len() == j,
                nodes@.to_multiset() == built.to_multiset(),
                strictly_sorted(keys_of(nodes@)),
                keys_of(nodes@).to_set() == node_names_upto(d, j as int),
                forall|m: int| 0 <= m < j ==> #[trigger] node_from(built[m].0@, built[m].1@, d, m) && node_wf(built[m].0@, built[m].1@),
                forall|m: int, q: int| 0 <= m < j && #[trigger] profile_at(d, m, q) ==> resolvable_at(d, m, q),
            decreases d.nodes@.len() - j,
        {
            let info = match NodeInfo::make(deploy, j) {
                Ok(info) => info,
                Err(e) => {
                    proof {
                        let q = choose|q: int| #[trigger] profile_at(d, j as int, q) && fails_with(d, j as int, q, e)
                            && forall|q2: int| 0 <= q2 < q ==> #[trigger] resolvable_at(d, j as int, q2);
                        assert(resolvable_before(d, j as int, q));
                        if settled(d) {
                            assert forall|q: int| #[trigger] profile_at(d, j as int, q) implies options_at(d, j as int, q).ssh_user is Some && resolvable(options_at(d, j as int, q), profile_name_at(d, j as int, q), explicit_path_at(d, j as int, q)) by {
                                assert(profile_at(d, j as int, q));
                            }
                        }
                    }
                    return Err(e);
                },
            };
            let key = NaturalString::owned(deploy.nodes[j].0.clone());
            proof {
                if keys_of(nodes@).contains(key@) {
                    assert(keys_of(nodes@).to_set().contains(key@));
                    let k = choose|k: int| 0 <= k < j && d.nodes@[k].0@ == key@;
                    assert(d.nodes@[k].0@ != d.nodes@[j as int].0@);
                }
            }
            let entry = (key, info);
            let ghost e = entry;
            insert_sorted(&mut nodes, entry);
            proof {
                let old_built = built;
                built = old_built.push(e);
                vstd::seq_lib::to_multiset_build(old_built, e);
                assert(keys_of(nodes@).to_set() =~= node_names_upto(d, j + 1)) by {
                    assert forall|x: Seq<char>| node_names_upto(d, j + 1).contains(x) <==> node_names_upto(d, j as int).insert(key@).contains(x) by {
                        if node_names_upto(d, j + 1).contains(x) {
                            let k = choose|k: int| 0 <= k < j + 1 && d.nodes@[k].0@ == x;
                            if k < j {
                                assert(node_names_upto(d, j as int).contains(x));
                            }
                        }
                        if node_names_upto(d, j as int).contains(x) {
                            let k = choose|k: int| 0 <= k < j && d.nodes@[k].0@ == x;
                            assert(0 <= k < j + 1);
                        }
                    }
                }
                assert forall|m: int| 0 <= m < j + 1 implies #[trigger] node_from(built[m].0@, built[m].1@, d, m) && node_wf(built[m].0@, built[m].1@) by {
                    if m < j {
                        assert(built[m] == old_built[m]);
                    }
                }
            }
            j = j + 1;
        }
        let r = Profiles { nodes };
        proof {
            lemma_profiles_view(r);
            let v = r@;
            assert forall|i: int| 0 <= i < v.len() implies node_wf((#[trigger] v[i]).0, v[i].1) by {
                lemma_same_elements(r.nodes@, built, r.nodes@[i]);
                assert(r.nodes@.contains(r.nodes@[i]));
                let m = choose|m: int| 0 <= m < built.len() && built[m] == r.nodes@[i];
                assert(v[i] == (r.nodes@[i].0@, r.nodes@[i].1@));
                assert(node_from(built[m].0@, built[m].1@, d, m));
                assert(node_from(v[i].0, v[i].1, d, m));
            }
            assert forall|i: int| 0 <= i < v.len() implies #[trigger] node_entry_made(v, i, d) by {
                lemma_same_elements(r.nodes@, built, r.nodes@[i]);
                assert(r.nodes@.contains(r.nodes@[i]));
                let m = choose|m: int| 0 <= m < built.len() && built[m] == r.nodes@[i];
                assert(v[i] == (r.nodes@[i].0@, r.nodes@[i].1@));
                assert(node_from(built[m].0@, built[m].1@, d, m));
                assert(node_from(v[i].0, v[i].1, d, m));
            }
            assert forall|jj: int| 0 <= jj < d.nodes@.len() implies #[trigger] node_listed(v, d, jj) by {
                assert(node_from(built[jj].0@, built[jj].1@, d, jj));
                lemma_same_elements(r.nodes@, built, built[jj]);
                assert(built.contains(built[jj]));
                let i = choose|i: int| 0 <= i < r.nodes@.len() && r.nodes@[i] == built[jj];
                assert(v[i] == (built[jj].0@, built[jj].1@));
            }
            assert forall|jj: int, q: int| #[trigger] profile_at(d, jj, q) implies resolvable(options_at(d, jj, q), profile_name_at(d, jj, q), explicit_path_at(d, jj, q)) by {
                assert(node_listed(v, d, jj));
                let i = choose|i: int| 0 <= i < v.len() && #[trigger] node_from(v[i].0, v[i].1, d, jj);
                assert(profile_listed(v[i].1, d, jj, q));
                let m = choose|m: int| 0 <= m < v[i].1.len() && #[trigger] info_from(v[i].1[m].0, v[i].1[m].1, d, jj, q);
            }
        }
        Ok(r)
    }
}

// ---------------------------------------------------------------------------
// Selecting nodes
// ---------------------------------------------------------------------------

/// The entries whose node name is requested, in their order.
pub open spec fn kept(p: ProfilesView, req: Seq<Seq<char>>) -> ProfilesView
    decreases p.len(),
{
    if p.len() == 0 {
        Seq::empty()
    } else {
        let r = kept(p.drop_last(), req);
        if req.contains(p.last().0) {
            r.push(p.last())
        } else {
            r
        }
    }
}

proof fn lemma_kept(p: ProfilesView, req: Seq<Seq<char>>)
    ensures
        forall|i: int| 0 <= i < kept(p, req).len() ==> p.contains(#[trigger] kept(p, req)[i]),
        forall|i: int| 0 <= i < kept(p, req).len() ==> req.contains((#[trigger] kept(p, req)[i]).0),
        strictly_sorted(names(p)) ==> strictly_sorted(names(kept(p, req))),
    decreases p.len(),
{
    if p.len() > 0 {
        let q = p.drop_last();
        lemma_kept(q, req);
        let k = kept(p, req);
        let kq = kept(q, req);
        assert forall|i: int| 0 <= i < k.len() implies p.contains(#[trigger] k[i]) && req.contains(k[i].0) by {
            if i < kq.len() {
                assert(k[i] == kq[i]);
                assert(q.contains(kq[i]));
                let j = choose|j: int| 0 <= j < q.len() && q[j] == kq[i];
                assert(p[j] == q[j]);
            } else {
                assert(k[i] == p.last());
                assert(p[p.len() - 1] == p.last());
            }
        }
        if strictly_sorted(names(p)) {
            assert(strictly_sorted(names(q))) by {
                assert forall|i: int, j: int| 0 <= i < j < names(q).len() implies natural_order(#[trigger] names(q)[i], #[trigger] names(q)[j]) == Ordering::Less by {
                    assert(names(q)[i] == names(p)[i]);
                    assert(names(q)[j] == names(p)[j]);
                }
            }
            let nk = names(k);
            assert forall|i: int, j: int| 0 <= i < j < nk.len() implies natural_order(#[trigger] nk[i], #[trigger] nk[j]) == Ordering::Less by {
                if j < kq.len() {
                    assert(nk[i] == names(kq)[i]);
                    assert(nk[j] == names(kq)[j]);
                } else {
                    assert(nk[j] == p.last().0);
                    assert(nk[i] == kq[i].0);
                    assert(q.contains(kq[i]));
                    let a = choose|a: int| 0 <= a < q.len() && q[a] == kq[i];
                    assert(names(p)[a] == kq[i].0);
                    assert(names(p)[p.len() - 1] == p.last().0);
                }
            }
        }
    }
}

impl Profiles {
    fn contains_key(&self, name: &str) -> (r: bool)
        ensures
            r == names(self@).contains(name@),
    {
        proof {
            lemma_profiles_view(*self);
        }
        let mut i: usize = 0;
        while i < self.nodes.len()
            invariant
                i <= self.nodes@.len(),
                names(self@) == keys_of(self.nodes@),
                forall|k: int| 0 <= k < i ==> keys_of(self.nodes@)[k] != name@,
            decreases self.nodes@.len() - i,
        {
            if str_eq(self.nodes[i].0.as_str(), name) {
                proof {
                    assert(keys_of(self.nodes@)[i as int] == name@);
                }
                return true;
            }
            i = i + 1;
        }
        false
    }

    /// The names of all nodes, in order.
    pub fn node_names(&self) -> (r: Vec<String>)
        ensures
            string_views(r@) == names(self@),
    {
        proof {
            lemma_profiles_view(*self);
        }
        let mut r: Vec<String> = Vec::new();
        let mut i: usize = 0;
        while i < self.nodes.len()
            invariant
                i <= self.nodes@.len(),
                names(self@) == keys_of(self.nodes@),
                string_views(r@) == keys_of(self.nodes@).take(i as int),
            decreases self.nodes@.len() - i,
        {
            let name = String::from_str(self.nodes[i].0.as_str());
            let ghost before = r@;
            r.push(name);
            proof {
                assert(string_views(r@) == string_views(before).push(name@));
                assert(keys_of(self.nodes@).take(i + 1) == keys_of(self.nodes@).take(i as int).push(keys_of(self.nodes@)[i as int]));
            }
            i = i + 1;
        }
        proof {
            assert(keys_of(self.nodes@).take(self.nodes@.len() as int) == keys_of(self.nodes@));
        }
        r
    }

    /// Keeps the given nodes only; each of them must have profiles.
    pub fn select(self, nodes: Option<&[String]>) -> (r: Result<Profiles, ProfileError>)
        requires
            self.wf(),
        ensures
            r is Ok ==> r->Ok_0.wf(),
            nodes is None ==> r is Ok && r->Ok_0@ == self@,
            nodes is Some ==> (r is Ok <==> forall|k: int| 0 <= k < nodes->0@.len() ==> names(self@).contains(#[trigger] nodes->0@[k]@)),
            nodes is Some && r is Ok ==> r->Ok_0@ == kept(self@, string_views(nodes->0@)),
            r is Err ==> r matches Err(ProfileError::UnknownNode { .. }),
            r matches Err(ProfileError::UnknownNode { node: n, known: ks }) ==> {
                &&& nodes is Some
                &&& string_views(ks@) == names(self@)
                &&& exists|k: int| 0 <= k < nodes->0@.len() && #[trigger] nodes->0@[k]@ == n@ && !names(self@).contains(n@) && forall|k2: int| 0 <= k2 < k ==> names(self@).contains(#[trigger] nodes->0@[k2]@)
            },
    {
        let req = match nodes {
            None => {
                return Ok(self);
            },
            Some(req) => req,
        };
        let ghost old_view = self@;
        let mut k: usize = 0;
        while k < req.len()
            invariant
                k <= req@.len(),
                self@ == old_view,
                nodes == Some(req),
                forall|k2: int| 0 <= k2 < k ==> names(self@).contains(#[trigger] req@[k2]@),
            decreases req@.len() - k,
        {
            if !self.contains_key(req[k].as_str()) {
                let known = self.node_names();
                let node = req[k].clone();
                proof {
                    assert(req@[k as int]@ == node@);
                    assert(!(forall|x: int| 0 <= x < req@.len() ==> names(self@).contains(#[trigger] req@[x]@)));
                    assert(nodes->0@ == req@);
                    assert(!(forall|x: int| 0 <= x < nodes->0@.len() ==> names(self@).contains(#[trigger] nodes->0@[x]@)));
                    assert(0 <= k < nodes->0@.len() && nodes->0@[k as int]@ == node@ && !names(self@).contains(node@) && forall|k2: int| 0 <= k2 < k ==> names(self@).contains(#[trigger] nodes->0@[k2]@));
                }
                return Err(ProfileError::UnknownNode { node, known });
            }
            k = k + 1;
        }
        let ghost rq = string_views(req@);
        proof {
            lemma_profiles_view(self);
            assert forall|x: int| 0 <= x < req@.len() implies names(self@).contains(#[trigger] req@[x]@) by {}
        }
        let ghost all = self.nodes@;
        let total = self.nodes.len();
        let mut rest = self.nodes;
        let mut out: Vec<(NaturalString<'static>, NodeInfo)> = Vec::new();
        let mut i: usize = 0;
        proof {
            assert(all.skip(0) == all);
        }
        while rest.len() > 0
            invariant
                i <= all.len(),
                total == all.len(),
                rest@ == all.skip(i as int),
                rq == string_views(req@),
                forall|m: int| 0 <= m < all.len() ==> #[trigger] old_view[m] == (all[m].0@, all[m].1@),
                old_view.len() == all.len(),
                out@.len() == kept(old_view.take(i as int), rq).len(),
                forall|m: int| 0 <= m < out@.len() ==> (out@[m].0@, out@[m].1@) == #[trigger] kept(old_view.take(i as int), rq)[m],
            decreases rest@.len(),
        {
            let e = rest.remove(0);
            proof {
                assert(e == all[i as int]);
                assert(rest@ == all.skip(i + 1));
                assert(old_view.take(i + 1).drop_last() == old_view.take(i as int));
                assert(old_view.take(i + 1).last() == old_view[i as int]);
            }
            let mut wanted = false;
            let mut k: usize = 0;
            while k < req.len()
                invariant
                    k <= req@.len(),
                    wanted <==> exists|k2: int| 0 <= k2 < k && req@[k2]@ == e.0@,
                decreases req@.len() - k,
            {
                if str_eq(req[k].as_str(), e.0.as_str()) {
                    wanted = true;
                }
                k = k + 1;
            }
            proof {
                if wanted {
                    let k2 = choose|k2: int| 0 <= k2 < k && req@[k2]@ == e.0@;
                    assert(rq[k2] == e.0@);
                    assert(rq.contains(old_view[i as int].0));
                } else {
                    if rq.contains(e.0@) {
                        let k2 = choose|k2: int| 0 <= k2 < rq.len() && rq[k2] == e.0@;
                        assert(req@[k2]@ == e.0@);
                    }
                    assert(!rq.contains(old_view[i as int].0));
                }
            }
            if wanted {
                out.push(e);
            }
            i = i + 1;
        }
        let r = Profiles { nodes: out };
        proof {
            assert(i == all.len());
            assert(old_view.take(i as int) == old_view);
            lemma_profiles_view(r);
            assert(r@ =~= kept(old_view, rq));
            lemma_kept(old_view, rq);
            assert forall|m: int| 0 <= m < r@.len() implies node_wf((#[trigger] r@[m]).0, r@[m].1) by {
                assert(old_view.contains(kept(old_view, rq)[m]));
                let a = choose|a: int| 0 <= a < old_view.len() && old_view[a] == kept(old_view, rq)[m];
                assert(node_wf(old_view[a].0, old_view[a].1));
            }
        }
        Ok(r)
    }
}

// ---------------------------------------------------------------------------
// Reading and showing all profiles
// ---------------------------------------------------------------------------

/// The information of a node's profiles, in order.
pub open spec fn infos(n: NodeView) -> Seq<ProfileInfo> {
    n.map_values(|e: (Seq<char>, ProfileInfo)| e.1)
}

/// The information of all profiles, node by node.
pub open spec fn all_infos(p: ProfilesView) -> Seq<ProfileInfo>
    decreases p.len(),
{
    if p.len() == 0 {
        Seq::empty()
    } else {
        all_infos(p.drop_last()) + infos(p.last().1)
    }
}

pub open spec fn derefs<T>(v: Seq<&T>) -> Seq<T> {
    v.map_values(|x: &T| *x)
}

pub open spec fn profile_names(v: Seq<ProfileInfo>) -> Seq<Seq<char>> {
    v.map_values(|i: ProfileInfo| i.profile@)
}

/// The rows of a node in the list of profiles.
pub open spec fn node_rows(n: NodeView, profile_width: nat) -> Seq<StyledText> {
    n.map_values(|e: (Seq<char>, ProfileInfo)| info_text(e.1, profile_width))
}

pub open spec fn profile_groups(p: ProfilesView, profile_width: nat) -> Seq<(Seq<char>, Seq<StyledText>)> {
    p.map_values(|e: (Seq<char>, NodeView)| (e.0, node_rows(e.1, profile_width)))
}

/// The list of all profiles, grouped by node, with names padded to the widest.
pub open spec fn profiles_text(p: ProfilesView) -> StyledText {
    table_text(
        "Profiles:"@,
        profile_groups(p, max_width(profile_names(all_infos(p)))),
        max_width(names(p)),
    )
}

impl NodeInfo {
    /// The node's profiles, in order.
    pub fn profiles(&self) -> (r: Vec<&ProfileInfo>)
        ensures
            derefs(r@) == infos(self@),
    {
        proof {
            lemma_node_view(*self);
        }
        let mut r: Vec<&ProfileInfo> = Vec::new();
        let mut i: usize = 0;
        while i < self.profiles.len()
            invariant
                i <= self.profiles@.len(),
                self@.len() == self.profiles@.len(),
                forall|k: int| 0 <= k < self@.len() ==> #[trigger] self@[k] == (self.profiles@[k].0@, self.profiles@[k].1),
                derefs(r@) == infos(self@).take(i as int),
            decreases self.profiles@.len() - i,
        {
            let ghost before = r@;
            r.push(&self.profiles[i].1);
            proof {
                assert(derefs(r@) == derefs(before).push(self.profiles@[i as int].1));
                assert(infos(self@).take(i + 1) == infos(self@).take(i as int).push(self@[i as int].1));
            }
            i = i + 1;
        }
        proof {
            assert(infos(self@).take(i as int) == infos(self@));
        }
        r
    }
}

impl Profiles {
    /// The nodes, in order.
    pub fn nodes(&self) -> (r: Vec<&NodeInfo>)
        ensures
            r@.len() == self@.len(),
            forall|i: int| 0 <= i < r@.len() ==> (#[trigger] r@[i])@ == self@[i].1,
    {
        proof {
            lemma_profiles_view(*self);
        }
        let mut r: Vec<&NodeInfo> = Vec::new();
        let mut i: usize = 0;
        while i < self.nodes.len()
            invariant
                i <= self.nodes@.len(),
                self@.len() == self.nodes@.len(),
                forall|k: int| 0 <= k < self@.len() ==> #[trigger] self@[k] == (self.nodes@[k].0@, self.nodes@[k].1@),
                r@.len() == i,
                forall|k: int| 0 <= k < i ==> (#[trigger] r@[k])@ == self@[k].1,
            decreases self.nodes@.len() - i,
        {
            r.push(&self.nodes[i].1);
            i = i + 1;
        }
        r
    }

    /// All profiles, node by node.
    pub fn profiles(&self) -> (r: Vec<&ProfileInfo>)
        ensures
            derefs(r@) == all_infos(self@),
    {
        let nodes = self.nodes();
        let mut r: Vec<&ProfileInfo> = Vec::new();
        let mut i: usize = 0;
        while i < nodes.len()
            invariant
                i <= nodes@.len(),
                nodes@.len() == self@.len(),
                forall|k: int| 0 <= k < nodes@.len() ==> (#[trigger] nodes@[k])@ == self@[k].1,
                derefs(r@) == all_infos(self@.take(i as int)),
            decreases nodes@.len() - i,
        {
            let ps = nodes[i].profiles();
            let ghost before = derefs(r@);
            let mut k: usize = 0;
            while k < ps.len()
                invariant
                    k <= ps@.len(),
                    derefs(r@) == before + derefs(ps@).take(k as int),
                decreases ps@.len() - k,
            {
                let ghost b2 = r@;
                r.push(ps[k]);
                proof {
                    assert(derefs(r@) == derefs(b2).push(*ps@[k as int]));
                    assert(derefs(ps@).take(k + 1) == derefs(ps@).take(k as int).push(*ps@[k as int]));
                }
                k = k + 1;
            }
            proof {
                assert(derefs(ps@).take(k as int) == derefs(ps@));
                assert(self@.take(i + 1).drop_last() == self@.take(i as int));
                assert(self@.take(i + 1).last() == self@[i as int]);
            }
            i = i + 1;
        }
        proof {
            assert(self@.take(i as int) == self@);
        }
        r
    }

    /// The number of profiles of all nodes.
    pub fn num_profiles(&self) -> (r: usize)
        ensures
            r == all_infos(self@).len(),
    {
        self.profiles().len()
    }

    /// Shows all profiles, grouped by node.
    pub fn display(&self) -> (r: Vec<Piece>)
        ensures
            piece_views(r@) == profiles_text(self@),
    {
        proof {
            lemma_profiles_view(*self);
        }
        let node_names = self.node_names();
        let node_width = get_max_width(&node_names);
        let all = self.profiles();
        let mut pnames: Vec<String> = Vec::new();
        let mut i: usize = 0;
        while i < all.len()
            invariant
                i <= all@.len(),
                string_views(pnames@) == profile_names(derefs(all@)).take(i as int),
            decreases all@.len() - i,
        {
            let ghost before = pnames@;
            pnames.push(all[i].profile.clone());
            proof {
                assert(string_views(pnames@) == string_views(before).push(all@[i as int].profile@));
                assert(profile_names(derefs(all@)).take(i + 1) == profile_names(derefs(all@)).take(i as int).push(all@[i as int].profile@));
            }
            i = i + 1;
        }
        proof {
            assert(profile_names(derefs(all@)).take(i as int) == profile_names(derefs(all@)));
        }
        let profile_width = get_max_width(&pnames);
        let mut groups: Vec<(String, Vec<Vec<Piece>>)> = Vec::new();
        let mut j: usize = 0;
        while j < self.nodes.len()
            invariant
                j <= self.nodes@.len(),
                self@.len() == self.nodes@.len(),
                forall|k: int| 0 <= k < self@.len() ==> #[trigger] self@[k] == (self.nodes@[k].0@, self.nodes@[k].1@),
                groups_view(groups@) == profile_groups(self@, profile_width as nat).take(j as int),
            decreases self.nodes@.len() - j,
        {
            let ps = self.nodes[j].1.profiles();
            proof {
                assert(derefs(ps@).len() == ps@.len());
                assert(infos(self@[j as int].1).len() == self@[j as int].1.len());
            }
            let mut rows: Vec<Vec<Piece>> = Vec::new();
            let mut k: usize = 0;
            while k < ps.len()
                invariant
                    k <= ps@.len(),
                    j < self@.len(),
                    derefs(ps@) == infos(self@[j as int].1),
                    ps@.len() == self@[j as int].1.len(),
                    rows_view(rows@) == node_rows(self@[j as int].1, profile_width as nat).take(k as int),
                decreases ps@.len() - k,
            {
                let row = ps[k].display(profile_width);
                let ghost before = rows@;
                rows.push(row);
                proof {
                    assert(rows_view(rows@) == rows_view(before).push(piece_views(row@)));
                    assert(derefs(ps@)[k as int] == *ps@[k as int]);
                    assert(infos(self@[j as int].1)[k as int] == self@[j as int].1[k as int].1);
                    assert(*ps@[k as int] == self@[j as int].1[k as int].1);
                    assert(node_rows(self@[j as int].1, profile_width as nat).take(k + 1) == node_rows(self@[j as int].1, profile_width as nat).take(k as int).push(info_text(self@[j as int].1[k as int].1, profile_width as nat)));
                }
                k = k + 1;
            }
            let name = String::from_str(self.nodes[j].0.as_str());
            let ghost before = groups@;
            proof {
                assert(node_rows(self@[j as int].1, profile_width as nat).take(k as int) == node_rows(self@[j as int].1, profile_width as nat));
            }
            groups.push((name, rows));
            proof {
                assert(groups_view(groups@) == groups_view(before).push((name@, rows_view(rows@))));
                assert(profile_groups(self@, profile_width as nat).take(j + 1) == profile_groups(self@, profile_width as nat).take(j as int).push((self@[j as int].0, node_rows(self@[j as int].1, profile_width as nat))));
            }
            j = j + 1;
        }
        proof {
            assert(profile_groups(self@, profile_width as nat).take(j as int) == profile_groups(self@, profile_width as nat));
            reveal_strlit("Profiles:");
        }
        table(String::from_str("Profiles:"), &groups, node_width)
    }
}

}
