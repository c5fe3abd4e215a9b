use deploy_utils::display::Piece;
use deploy_utils::profile::{
    combine_generic_options, Deploy, GenericOptions, Node, Profile, ProfileError, ProfileInfo,
    Profiles,
};

fn opts(ssh_user: Option<&str>, ssh_opts: &[&str], user: Option<&str>, fast: Option<bool>) -> GenericOptions {
    GenericOptions {
        ssh_user: ssh_user.map(str::to_owned),
        ssh_opts: ssh_opts.iter().map(|s| s.to_string()).collect(),
        user: user.map(str::to_owned),
        fast_connection: fast,
    }
}

fn none() -> GenericOptions {
    opts(None, &[], None, None)
}

fn profile(path: Option<&str>, generic: GenericOptions) -> Profile {
    Profile {
        profile_path: path.map(str::to_owned),
        generic,
    }
}

fn node(hostname: &str, profiles: Vec<(&str, Profile)>, generic: GenericOptions) -> Node {
    Node {
        hostname: hostname.to_string(),
        profiles: profiles.into_iter().map(|(n, p)| (n.to_string(), p)).collect(),
        generic,
    }
}

fn deploy(nodes: Vec<(&str, Node)>, generic: GenericOptions) -> Deploy {
    Deploy {
        nodes: nodes.into_iter().map(|(n, node)| (n.to_string(), node)).collect(),
        generic,
    }
}

fn plain(pieces: &[Piece]) -> String {
    pieces.iter().map(|p| p.text.as_str()).collect()
}

fn info(node: &str, profile: &str, ssh_opts: &[&str], fast: bool) -> ProfileInfo {
    ProfileInfo {
        node: node.to_string(),
        profile: profile.to_string(),
        hostname: format!("{node}.example"),
        profile_path: "/nix/var/nix/profiles/system".to_string(),
        user: "root".to_string(),
        ssh_user: "admin".to_string(),
        ssh_opts: ssh_opts.iter().map(|s| s.to_string()).collect(),
        fast_connection: fast,
    }
}

#[test]
fn most_specific_option_wins() {
    let d = opts(Some("d"), &["-d"], Some("du"), Some(false));
    let n = opts(Some("n"), &["-n"], None, None);
    let p = opts(None, &["-p"], None, Some(true));
    let c = combine_generic_options(&d, &n, &p);
    assert_eq!(c.ssh_user.as_deref(), Some("n"));
    assert_eq!(c.user.as_deref(), Some("du"));
    assert_eq!(c.fast_connection, Some(true));
    assert_eq!(c.ssh_opts, vec!["-d", "-n", "-p"]);
}

#[test]
fn profile_paths() {
    let n = node("web.example", vec![], none());
    let sys = profile(None, opts(Some("admin"), &[], Some("root"), None));
    let info = ProfileInfo::make("web", "system", &none(), &n, &sys).unwrap();
    assert_eq!(info.profile_path, "/nix/var/nix/profiles/system");
    assert_eq!(info.user, "root");
    assert_eq!(info.ssh_user, "admin");
    assert_eq!(info.hostname, "web.example");
    assert!(!info.fast_connection);

    let other = ProfileInfo::make("web", "apps", &none(), &n, &sys).unwrap();
    assert_eq!(other.profile_path, "/nix/var/nix/profiles/per-user/root/apps");

    let explicit = profile(Some("/custom"), opts(Some("alice"), &[], None, None));
    let e = ProfileInfo::make("web", "home", &none(), &n, &explicit).unwrap();
    assert_eq!(e.profile_path, "/custom");
    assert_eq!(e.user, "alice");
}

#[test]
fn profile_errors() {
    let n = node("web.example", vec![], none());
    let no_user = profile(None, none());
    match ProfileInfo::make("web", "system", &none(), &n, &no_user) {
        Err(ProfileError::NoUser { node, profile }) => {
            assert_eq!(node, "web");
            assert_eq!(profile, "system");
        }
        other => panic!("unexpected {other:?}"),
    }
    let non_root = profile(None, opts(Some("alice"), &[], None, None));
    match ProfileInfo::make("web", "home", &none(), &n, &non_root) {
        Err(ProfileError::NonRootProfilePath { user, node, profile }) => {
            assert_eq!(user, "alice");
            assert_eq!(node, "web");
            assert_eq!(profile, "home");
        }
        other => panic!("unexpected {other:?}"),
    }
}

#[test]
fn ssh_user_defaults_to_current_user() {
    let n = node("web.example", vec![], none());
    let p = profile(None, opts(None, &[], Some("root"), None));
    match ProfileInfo::make("web", "system", &none(), &n, &p) {
        Ok(info) => assert!(!info.ssh_user.is_empty()),
        Err(ProfileError::Username(_)) => {}
        Err(other) => panic!("unexpected {other:?}"),
    }
}

#[test]
fn nix_sshopts_quoting() {
    assert_eq!(info("a", "b", &[], false).get_nix_sshopts(), "");
    assert_eq!(info("a", "b", &["-p", "22"], false).get_nix_sshopts(), "-p 22");
    assert_eq!(
        info("a", "b", &["-o", "ProxyCommand=ssh -W %h:%p jump"], false).get_nix_sshopts(),
        "-o 'ProxyCommand=ssh -W %h:%p jump'"
    );
    assert_eq!(info("a", "b", &["it's"], false).get_nix_sshopts(), "'it'\\''s'");
    assert_eq!(info("a", "b", &[""], false).get_nix_sshopts(), "''");
    assert_eq!(info("a", "b", &["a\"b", "c\\d"], false).get_nix_sshopts(), "'a\"b' 'c\\d'");
}

#[test]
fn profile_display() {
    let i = info("web", "sys", &["-p", "22"], true);
    assert_eq!(
        plain(&i.display(6)),
        "sys    as root at admin@web.example:/nix/var/nix/profiles/system (fast) with -p 22"
    );
    let j = info("web", "system", &[], false);
    assert_eq!(
        plain(&j.display(3)),
        "system as root at admin@web.example:/nix/var/nix/profiles/system"
    );
}

fn sample() -> Deploy {
    let root = || opts(Some("admin"), &[], Some("root"), None);
    deploy(
        vec![
            ("web10", node("h10", vec![("system", profile(None, root()))], none())),
            (
                "web2",
                node(
                    "h2",
                    vec![("system", profile(None, root())), ("apps", profile(None, root()))],
                    none(),
                ),
            ),
            ("db", node("hdb", vec![("system", profile(None, root()))], none())),
        ],
        none(),
    )
}

#[test]
fn profiles_in_natural_order() {
    let profiles = Profiles::from_deploy(&sample()).unwrap();
    let names = profiles.node_names();
    assert_eq!(names, vec!["db", "web2", "web10"]);
    assert_eq!(profiles.num_profiles(), 4);
    let all: Vec<(String, String)> = profiles
        .profiles()
        .iter()
        .map(|p| (p.node.clone(), p.profile.clone()))
        .collect();
    assert_eq!(
        all,
        vec![
            ("db".to_string(), "system".to_string()),
            ("web2".to_string(), "apps".to_string()),
            ("web2".to_string(), "system".to_string()),
            ("web10".to_string(), "system".to_string()),
        ]
    );
    assert_eq!(profiles.nodes().len(), 3);
    assert_eq!(profiles.nodes()[1].profiles().len(), 2);
}

#[test]
fn profiles_errors() {
    let d = deploy(
        vec![("web", node("h", vec![("system", profile(None, none()))], none()))],
        none(),
    );
    assert!(matches!(
        Profiles::from_deploy(&d),
        Err(ProfileError::NoUser { .. })
    ));
}

#[test]
fn select_nodes() {
    let all = Profiles::from_deploy(&sample()).unwrap();
    let all = all.select(None).unwrap();
    assert_eq!(all.node_names(), vec!["db", "web2", "web10"]);
    let wanted = vec!["web10".to_string(), "db".to_string()];
    let some = all.select(Some(wanted.as_slice())).unwrap();
    assert_eq!(some.node_names(), vec!["db", "web10"]);
    let bad = vec!["db".to_string(), "nope".to_string()];
    match some.select(Some(bad.as_slice())) {
        Err(ProfileError::UnknownNode { node, known }) => {
            assert_eq!(node, "nope");
            assert_eq!(known, vec!["db", "web10"]);
        }
        other => panic!("unexpected {other:?}"),
    }
}

#[test]
fn profiles_display() {
    let profiles = Profiles::from_deploy(&sample()).unwrap();
    let text = plain(&profiles.display());
    assert_eq!(
        text,
        "Profiles:\n\
         \x20 db    system as root at admin@hdb:/nix/var/nix/profiles/system\n\
         \x20 web2  apps   as root at admin@h2:/nix/var/nix/profiles/per-user/root/apps\n\
         \x20       system as root at admin@h2:/nix/var/nix/profiles/system\n\
         \x20 web10 system as root at admin@h10:/nix/var/nix/profiles/system\n"
    );
}

#[test]
fn looked_up_name_is_the_ssh_user() {
    let n = node("web.example", vec![], none());
    let p = profile(None, opts(None, &["-p", "22"], Some("root"), Some(true)));
    let info = ProfileInfo::make_with_user_name("web", "system", &none(), &n, &p, Some(Ok("carol".to_string())))
        .unwrap();
    assert_eq!(info.ssh_user, "carol");
    assert_eq!(info.user, "root");
    assert_eq!(info.profile_path, "/nix/var/nix/profiles/system");
    assert_eq!(info.ssh_opts, vec!["-p", "22"]);
    assert!(info.fast_connection);

    let set = profile(None, opts(Some("admin"), &[], Some("root"), None));
    let info = ProfileInfo::make_with_user_name("web", "system", &none(), &n, &set, None).unwrap();
    assert_eq!(info.ssh_user, "admin");

    let non_root = profile(None, opts(None, &[], Some("alice"), None));
    match ProfileInfo::make_with_user_name("web", "home", &none(), &n, &non_root, Some(Ok("carol".to_string()))) {
        Err(ProfileError::NonRootProfilePath { user, node, profile }) => {
            assert_eq!(user, "alice");
            assert_eq!(node, "web");
            assert_eq!(profile, "home");
        }
        other => panic!("unexpected {other:?}"),
    }
}

#[test]
fn profile_error_messages() {
    let no_user = ProfileError::NoUser { node: "web".to_string(), profile: "system".to_string() };
    assert_eq!(
        no_user.message(),
        "neither `user` nor `sshUser` is set for profile system of node web"
    );
    assert_eq!(no_user.hint(), None);
    let non_root = ProfileError::NonRootProfilePath {
        user: "alice".to_string(),
        node: "web".to_string(),
        profile: "home".to_string(),
    };
    assert_eq!(non_root.message(), "cannot determine profile path for a non-root user alice");
    assert_eq!(
        non_root.hint().unwrap(),
        "specify `deploy.nodes.web.profiles.home.profilePath` explicitly, \
         instead of relying on the deploy-rs default, \
         which is determined dynamically during profile activation"
    );
    let unknown = ProfileError::UnknownNode {
        node: "nope".to_string(),
        known: vec!["db".to_string(), "web".to_string()],
    };
    assert_eq!(unknown.message(), "no profiles defined for node nope");
    assert_eq!(unknown.hint().unwrap(), "profiles exist for the following nodes: db, web");
}
