use opencdd::dispatch::ClaimResult;
use opencdd::dispatch::Component;
use opencdd::dispatch::Dispatcher;
use opencdd::dispatch::RegistryError;
use opencdd::matcher::MatchError;
use opencdd::matcher::Matched;
use opencdd::tokenize::split_shell;
use opencdd::tree::ArgKind;
use opencdd::tree::ArgSpec;
use opencdd::tree::Command;
use opencdd::tree::Group;

fn strings(words: &[&str]) -> Vec<String> {
    words.iter().map(|w| w.to_string()).collect()
}

fn err_of(r: Result<Matched, MatchError>) -> MatchError {
    match r {
        Err(e) => e,
        Ok(_) => panic!("expected a matching failure"),
    }
}

#[test]
fn tokenize_quoted_run() {
    let toks = split_shell("ping \"a b\" c");
    assert_eq!(toks, strings(&["ping", "a b", "c"]));
}

#[test]
fn tokenize_unterminated_quote_consumes_to_end() {
    let toks = split_shell("say \"hello there");
    assert_eq!(toks, strings(&["say", "hello there"]));
}

#[test]
fn tokenize_empty_quotes_and_single_quotes() {
    assert_eq!(split_shell("a \"\" b"), strings(&["a", "", "b"]));
    assert_eq!(split_shell("a 'x y' b"), strings(&["a", "x y", "b"]));
    assert_eq!(split_shell("  \t "), strings(&[]));
    assert_eq!(split_shell(""), strings(&[]));
}

fn categories_tree() -> Group {
    Group::new("root").add_group(
        Group::new("categories")
            .add_command(
                Command::new("add")
                    .add_argument(ArgSpec::new("name", ArgKind::Text, true))
                    .add_argument(ArgSpec::new("category_id", ArgKind::Int, true))
                    .add_argument(ArgSpec::new("prefix", ArgKind::Text, true))
                    .add_argument(ArgSpec::new("hidden", ArgKind::Bool, true))
                    .add_argument(ArgSpec::new("desc", ArgKind::Text, false)),
            )
            .add_command(Command::new("list")),
    )
}

#[test]
fn optional_slot_left_empty_is_not_missing() {
    let tree = categories_tree();
    let toks = strings(&["categories", "add", "Support", "123", "SUP", "true"]);
    let roles = strings(&[]);
    let m = tree.try_match(None, &toks, &roles).expect("should resolve");
    assert_eq!(m.get_command(), "add");
    assert_eq!(m.path, strings(&["categories"]));
    assert_eq!(m.args.len(), 5);
    assert_eq!(m.args[0], ("name".to_string(), Some("Support".to_string())));
    assert_eq!(m.args[4], ("desc".to_string(), None));
    assert_eq!(m.get_argument(&"prefix".to_string()), Some(&"SUP".to_string()));
    assert_eq!(m.get_argument(&"desc".to_string()), None);
    assert_eq!(m.get_argument(&"absent".to_string()), None);
}

#[test]
fn repeated_match_is_deterministic() {
    let tree = categories_tree();
    let toks = strings(&["categories", "add", "Support", "123", "SUP", "true"]);
    let roles = strings(&[]);
    let a = tree.try_match(None, &toks, &roles).expect("resolves");
    let b = tree.try_match(None, &toks, &roles).expect("resolves");
    assert_eq!(a.get_command(), b.get_command());
    assert_eq!(a.path, b.path);
    assert_eq!(a.args, b.args);
}

fn gated_tree() -> Group {
    Group::new("root").add_group(
        Group::new("admin")
            .set_role("staff")
            .add_command(
                Command::new("purge").add_argument(ArgSpec::new("count", ArgKind::Int, true)),
            ),
    )
}

#[test]
fn group_gate_short_circuits_before_argument_errors() {
    let tree = gated_tree();
    let roles = strings(&[]);
    // Even with the count argument missing, the role refusal comes first.
    let r = tree.try_match(None, &strings(&["admin", "purge"]), &roles);
    assert_eq!(err_of(r), MatchError::PermissionDenied);
    let r = tree.try_match(None, &strings(&["admin", "purge", "5"]), &roles);
    assert_eq!(err_of(r), MatchError::PermissionDenied);
}

#[test]
fn each_failure_kind_is_reachable() {
    let tree = gated_tree();
    let staff = strings(&["staff"]);
    let none = strings(&[]);
    assert_eq!(
        err_of(tree.try_match(None, &strings(&["unknown"]), &staff)),
        MatchError::NotMatched
    );
    assert_eq!(
        err_of(tree.try_match(None, &strings(&[]), &staff)),
        MatchError::NotMatched
    );
    assert_eq!(
        err_of(tree.try_match(None, &strings(&["admin", "purge"]), &staff)),
        MatchError::MissingArgument
    );
    assert_eq!(
        err_of(tree.try_match(None, &strings(&["admin", "purge", "5", "6"]), &staff)),
        MatchError::TooManyArguments
    );
    assert_eq!(
        err_of(tree.try_match(None, &strings(&["admin", "purge", "soon"]), &staff)),
        MatchError::UnknownArgument
    );
    assert_eq!(
        err_of(tree.try_match(None, &strings(&["admin", "purge"]), &none)),
        MatchError::PermissionDenied
    );
    assert!(tree.try_match(None, &strings(&["admin", "purge", "5"]), &staff).is_ok());
}

#[test]
fn command_level_role_is_checked() {
    let tree = Group::new("root").add_command(Command::new("ping").set_role("role_ping"));
    let r = tree.try_match(None, &strings(&["ping"]), &strings(&[]));
    assert_eq!(err_of(r), MatchError::PermissionDenied);
    assert!(tree.try_match(None, &strings(&["ping"]), &strings(&["role_ping"])).is_ok());
}

#[test]
fn registering_twice_is_a_configuration_error() {
    let mut d = Dispatcher::new('.');
    let c1 = Component {
        name: "tickets".to_string(),
        root: categories_tree(),
        event_tags: strings(&["Ready"]),
    };
    let c2 = Component {
        name: "tickets".to_string(),
        root: gated_tree(),
        event_tags: strings(&[]),
    };
    assert!(d.register(c1).is_ok());
    assert_eq!(d.register(c2).unwrap_err(), RegistryError::ConfigurationError);
}

#[test]
fn duplicate_sibling_names_are_a_configuration_error() {
    let mut d = Dispatcher::new('.');
    let bad = Group::new("root")
        .add_group(Group::new("x"))
        .add_command(Command::new("x"));
    let c = Component { name: "bad".to_string(), root: bad, event_tags: strings(&[]) };
    assert_eq!(d.register(c).unwrap_err(), RegistryError::ConfigurationError);
}

#[test]
fn routing_is_first_wins_and_prefix_gated() {
    let mut d = Dispatcher::new('.');
    let first = Component {
        name: "first".to_string(),
        root: Group::new("first").add_command(Command::new("ping")),
        event_tags: strings(&[]),
    };
    let second = Component {
        name: "second".to_string(),
        root: Group::new("second").add_command(Command::new("ping")),
        event_tags: strings(&[]),
    };
    d.register(first).unwrap();
    d.register(second).unwrap();
    let roles = strings(&[]);
    match d.route_command(".ping", &roles) {
        ClaimResult::Claimed { component, matched } => {
            assert_eq!(component, "first");
            assert_eq!(matched.get_command(), "ping");
        },
        _ => panic!("expected a claim"),
    }
    match d.route_command("ping", &roles) {
        ClaimResult::NotClaimed => {},
        _ => panic!("a line without the prefix is not a command"),
    }
    match d.route_command(".absent", &roles) {
        ClaimResult::NotClaimed => {},
        _ => panic!("nobody claims an unknown command"),
    }
}

#[test]
fn a_failure_stops_the_iteration() {
    let mut d = Dispatcher::new('.');
    let gated = Component {
        name: "gated".to_string(),
        root: gated_tree(),
        event_tags: strings(&[]),
    };
    let open_too = Component {
        name: "open".to_string(),
        root: Group::new("open").add_group(
            Group::new("admin").add_command(Command::new("purge")),
        ),
        event_tags: strings(&[]),
    };
    d.register(gated).unwrap();
    d.register(open_too).unwrap();
    match d.route_command(".admin purge 5", &strings(&[])) {
        ClaimResult::Failed { component, error } => {
            assert_eq!(component, "gated");
            assert_eq!(error, MatchError::PermissionDenied);
        },
        _ => panic!("the first non-NotMatched answer is authoritative"),
    }
}

#[test]
fn events_fan_out_in_registration_order() {
    let mut d = Dispatcher::new('.');
    for (name, tags) in [("a", vec!["Ready"]), ("b", vec![]), ("c", vec!["Ready", "Message"])] {
        let c = Component {
            name: name.to_string(),
            root: Group::new(name),
            event_tags: tags.iter().map(|t| t.to_string()).collect(),
        };
        d.register(c).unwrap();
    }
    assert_eq!(d.route_event(&"Ready".to_string()), strings(&["a", "c"]));
    assert_eq!(d.route_event(&"Message".to_string()), strings(&["c"]));
    assert_eq!(d.route_event(&"Absent".to_string()), strings(&[]));
}
