use opencdd::dispatch::ClaimResult;
use opencdd::dispatch::Component;
use opencdd::dispatch::Dispatcher;
use opencdd::matcher::Matched;
use opencdd::misc::Misc;
use opencdd::misc::MiscAction;
use opencdd::store::Store;
use opencdd::tickets::AddMemberDecision;
use opencdd::tickets::CategoryTicket;
use opencdd::tickets::DataTickets;
use opencdd::tickets::Tickets;
use opencdd::tickets::TicketsError;
use opencdd::tickets::TicketsOutcome;
use opencdd::tickets::add_category;
use opencdd::tickets::add_member_decision;
use opencdd::tickets::find_staff_role;
use opencdd::tickets::is_staff_decision;
use opencdd::tickets::is_ticket_category;
use opencdd::tickets::is_ticket_owner_decision;
use opencdd::tickets::menu_options;
use opencdd::tickets::remove_category;
use opencdd::tickets::ticket_channel_name;

fn strings(words: &[&str]) -> Vec<String> {
    words.iter().map(|w| w.to_string()).collect()
}

fn route_to_tickets(d: &Dispatcher, line: &str) -> Matched {
    match d.route_command(line, &strings(&[])) {
        ClaimResult::Claimed { component, matched } => {
            assert_eq!(component, "tickets");
            matched
        },
        _ => panic!("the tickets component claims {line}"),
    }
}

fn reply_of(outcome: TicketsOutcome) -> opencdd::message::Message {
    match outcome {
        TicketsOutcome::Reply(m) => m,
        TicketsOutcome::Deferred => panic!("expected a finished reply"),
    }
}

#[test]
fn tickets_end_to_end_with_restart() {
    let mut d = Dispatcher::new('.');
    let tickets = Tickets::new(None).expect("no snapshot: default record");
    d.register(Component {
        name: tickets.name().to_string(),
        root: Tickets::group_tree(),
        event_tags: strings(&["Ready"]),
    })
    .unwrap();
    let mut store = tickets.data;

    // An empty store lists zero categories.
    let m = route_to_tickets(&d, ".categories list");
    assert!(store.try_acquire_write());
    let reply = reply_of(store.apply(&m));
    assert_eq!(reply.embeds.len(), 1);
    assert_eq!(reply.embeds[0].title, "Liste des catégories");
    assert_eq!(reply.embeds[0].fields.len(), 0);

    // Adding a category succeeds and describes it.
    let m = route_to_tickets(&d, ".categories add Support 111 SUP false");
    let reply = reply_of(store.apply(&m));
    assert_eq!(reply.embeds[0].title, "Catégorie créée");
    assert_eq!(reply.embeds[0].fields[0].name, "Support");

    // The same list command now shows one category named Support.
    let m = route_to_tickets(&d, ".categories list");
    let reply = reply_of(store.apply(&m));
    assert_eq!(reply.embeds[0].fields.len(), 1);
    assert_eq!(reply.embeds[0].fields[0].name, "Support");

    // A process restart reloads the flushed snapshot and keeps the record.
    let snapshot = store.release_write();
    let mut store = Store::load(Some(&snapshot)).expect("snapshot parses");
    assert!(store.try_acquire_read());
    let record = store.read();
    assert_eq!(record.categories.len(), 1);
    assert_eq!(record.categories[0].name, "Support");
    assert_eq!(record.categories[0].id, 111);
    assert_eq!(record.categories[0].prefix, "SUP");
    assert!(!record.categories[0].hidden);
}

#[test]
fn adding_a_taken_name_is_refused_and_removing_restores_it() {
    let mut data = DataTickets::default();
    assert!(add_category(&mut data, "Support".to_string(), 1, "SUP".to_string(), false, None)
        .is_ok());
    assert_eq!(
        add_category(&mut data, "Support".to_string(), 2, "SUP2".to_string(), true, None)
            .unwrap_err(),
        TicketsError::CategoryExists
    );
    assert_eq!(data.categories.len(), 1);
    let removed = remove_category(&mut data, &"Support".to_string()).expect("exists");
    assert_eq!(removed.name, "Support");
    assert_eq!(data.categories.len(), 0);
    match remove_category(&mut data, &"Support".to_string()) {
        Err(e) => assert_eq!(e, TicketsError::CategoryNotFound),
        Ok(_) => panic!("the category is gone"),
    }
}

#[test]
fn duplicate_add_through_the_command_surface() {
    let mut d = Dispatcher::new('.');
    d.register(Component {
        name: "tickets".to_string(),
        root: Tickets::group_tree(),
        event_tags: strings(&[]),
    })
    .unwrap();
    let mut store = Store::load(None).unwrap();
    assert!(store.try_acquire_write());
    let m = route_to_tickets(&d, ".categories add Support 111 SUP false");
    reply_of(store.apply(&m));
    let m = route_to_tickets(&d, ".categories add Support 222 AGAIN true");
    let reply = reply_of(store.apply(&m));
    assert_eq!(reply.embeds[0].title, "Erreur");
    assert_eq!(reply.embeds[0].description, "Cette catégorie existe déjà");
    let m = route_to_tickets(&d, ".categories remove Absent");
    let reply = reply_of(store.apply(&m));
    assert_eq!(reply.embeds[0].description, "Cette catégorie n'existe pas");
}

#[test]
fn menu_hides_hidden_categories() {
    let data = DataTickets {
        msg_choose: None,
        categories: vec![
            CategoryTicket {
                name: "Visible".to_string(),
                prefix: "V".to_string(),
                id: 1,
                desc: Some("desc".to_string()),
                tickets: vec![],
                hidden: false,
            },
            CategoryTicket {
                name: "Cachée".to_string(),
                prefix: "C".to_string(),
                id: 2,
                desc: None,
                tickets: vec![],
                hidden: true,
            },
        ],
    };
    let options = menu_options(&data);
    assert_eq!(options.len(), 1);
    assert_eq!(options[0].label, "Visible");
    assert_eq!(options[0].value, "Visible");
    assert_eq!(options[0].description, "desc");
}

#[test]
fn category_message_uses_a_placeholder_without_description() {
    let c = CategoryTicket {
        name: "Support".to_string(),
        prefix: "SUP".to_string(),
        id: 1,
        desc: None,
        tickets: vec![],
        hidden: false,
    };
    let m = c.to_message("Catégorie créée");
    assert_eq!(m.embeds[0].fields[0].value, "*Aucune description*");
}

#[test]
fn ticket_membership_decisions() {
    let data = DataTickets {
        msg_choose: None,
        categories: vec![CategoryTicket {
            name: "Support".to_string(),
            prefix: "SUP".to_string(),
            id: 77,
            desc: None,
            tickets: vec![],
            hidden: false,
        }],
    };
    assert!(is_ticket_category(&data, 77));
    assert!(!is_ticket_category(&data, 78));

    assert_eq!(add_member_decision(false, true, true, true), AddMemberDecision::NotInGuild);
    assert_eq!(add_member_decision(true, false, true, true), AddMemberDecision::NotATicket);
    assert_eq!(add_member_decision(true, true, false, false), AddMemberDecision::NotPermitted);
    assert_eq!(add_member_decision(true, true, false, true), AddMemberDecision::Allowed);
    assert_eq!(add_member_decision(true, true, true, false), AddMemberDecision::Allowed);

    let roles = vec![(1, "everyone".to_string()), (2, "staff".to_string())];
    assert_eq!(find_staff_role(&roles), Some(2));
    assert_eq!(is_staff_decision(&roles, &vec![2, 9]), Ok(true));
    assert_eq!(is_staff_decision(&roles, &vec![9]), Ok(false));
    let no_staff = vec![(1, "everyone".to_string())];
    assert_eq!(is_staff_decision(&no_staff, &vec![1]), Err(TicketsError::StaffRoleMissing));

    assert!(is_ticket_owner_decision(&vec![5, 6], 6));
    assert!(!is_ticket_owner_decision(&vec![5, 6], 7));

    assert_eq!(ticket_channel_name("SUP", "alice"), "SUP-alice");
}

#[test]
fn misc_ping_answers_pong() {
    let misc = Misc::new();
    assert_eq!(misc.name(), "misc");
    match misc.command("ping", &strings(&["role", "role_ping"])) {
        MiscAction::Say(text) => assert_eq!(text, "pong!"),
        _ => panic!("ping answers pong"),
    }
    match misc.command("ping", &strings(&["role"])) {
        MiscAction::Error(text) => assert_eq!(text, "Permission refusée"),
        _ => panic!("the command role guards ping"),
    }
    match misc.command("ping", &strings(&["role_ping"])) {
        MiscAction::Say(text) => assert_eq!(text, "pong!"),
        _ => panic!("the begin group is a container; only the command's role guards ping"),
    }
    match misc.command("absent", &strings(&["role", "role_ping"])) {
        MiscAction::NotMatched => {},
        _ => panic!("an unknown line is not claimed"),
    }
}

#[test]
fn non_matching_lines_are_routing_signals_whatever_the_roles() {
    let misc = Misc::new();
    let no_roles = strings(&[]);
    // An empty token sequence always yields the routing signal, never an
    // error, so the line can fall through to the next component.
    match misc.command("", &no_roles) {
        MiscAction::NotMatched => {},
        _ => panic!("an empty line is nobody's command"),
    }
    match misc.command("   \t ", &no_roles) {
        MiscAction::NotMatched => {},
        _ => panic!("a blank line is nobody's command"),
    }
    // A token naming no child of the tree falls through too, even for a
    // caller holding none of the roles in the tree.
    match misc.command("absent", &no_roles) {
        MiscAction::NotMatched => {},
        _ => panic!("an unknown line is not claimed"),
    }
}
