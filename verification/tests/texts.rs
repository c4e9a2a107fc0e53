use opencdd::decimal::parse_u64;
use opencdd::decimal::render_u64;
use opencdd::matcher::MatchError;
use opencdd::misc::CommandMatch;
use opencdd::store::Store;
use opencdd::tickets::AddMemberDecision;
use opencdd::tickets::add_member_refusal_text;
use opencdd::tickets::member_add_failed_text;
use opencdd::tickets::set_channel_done_text;
use opencdd::misc::connected_line;
use opencdd::misc::has_role_decision;
use opencdd::misc::invitation_line;
use opencdd::tickets::CategoryTicket;
use opencdd::tickets::DataTickets;
use opencdd::tickets::close_ticket_decision;
use opencdd::tickets::is_a_ticket_decision;
use opencdd::tickets::OverwriteKind;
use opencdd::tickets::display_user;
use opencdd::tickets::member_added_text;
use opencdd::tickets::reset_message_choose;
use opencdd::tickets::set_channel_record;
use opencdd::tickets::ticket_created_text;
use opencdd::tickets::ticket_permissions;
use opencdd::tickets::ticket_presentation_text;

#[test]
fn decimal_rendering_is_plain_and_invertible() {
    assert_eq!(render_u64(0), "0");
    assert_eq!(render_u64(7), "7");
    assert_eq!(render_u64(12345), "12345");
    assert_eq!(render_u64(u64::MAX), "18446744073709551615");
    for v in [0u64, 9, 10, 99, 1000, 123456789, u64::MAX] {
        assert_eq!(parse_u64(&render_u64(v)), Some(v));
    }
}

#[test]
fn ticket_texts_name_the_right_parties() {
    assert_eq!(ticket_created_text(97), "Ticket créé: <#97>");
    let prez = ticket_presentation_text(5);
    assert!(prez.starts_with("Hey <@5>, par ici !"));
    assert!(prez.contains("Fermer le ticket"));
    assert_eq!(member_added_text(&"alice".to_string()), "alice a bien été ajoutée.");
    assert_eq!(display_user(Some("alice".to_string()), 9), "alice");
    assert_eq!(display_user(None, 9), "9");
}

#[test]
fn ticket_permissions_open_for_owner_and_staff_only() {
    let rules = ticket_permissions(10, 20, 30);
    assert_eq!(rules.len(), 3);
    assert_eq!(rules[0].kind, OverwriteKind::Member(10));
    assert!(rules[0].allow_view);
    assert_eq!(rules[1].kind, OverwriteKind::Role(20));
    assert!(rules[1].allow_view);
    assert_eq!(rules[2].kind, OverwriteKind::Role(30));
    assert!(!rules[2].allow_view);
}

#[test]
fn menu_message_identifiers_are_replaced_and_cleared() {
    let mut data = DataTickets::default();
    set_channel_record(&mut data, 1, 2);
    assert_eq!(data.msg_choose, Some((1, 2)));
    set_channel_record(&mut data, 3, 4);
    assert_eq!(data.msg_choose, Some((3, 4)));
    reset_message_choose(&mut data, None);
    assert_eq!(data.msg_choose, None);
}

#[test]
fn closing_a_ticket_names_what_failed() {
    assert!(close_ticket_decision(true, Ok(()), Ok(())).is_ok());
    match close_ticket_decision(false, Ok(()), Ok(())) {
        Err(e) => assert_eq!(e, "Ce n'est pas un ticket"),
        Ok(_) => panic!("not a ticket"),
    }
    match close_ticket_decision(true, Err("disque plein".to_string()), Ok(())) {
        Err(e) => assert_eq!(e, "Erreur lors de l'archivage du ticket: disque plein"),
        Ok(_) => panic!("archival failed"),
    }
    match close_ticket_decision(true, Ok(()), Err("introuvable".to_string())) {
        Err(e) => assert_eq!(e, "Erreur lors de la suppression du ticket: introuvable"),
        Ok(_) => panic!("deletion failed"),
    }
}

#[test]
fn a_channel_without_parent_is_no_ticket() {
    let data = DataTickets {
        msg_choose: None,
        categories: vec![CategoryTicket {
            name: "Support".to_string(),
            prefix: "SUP".to_string(),
            id: 7,
            desc: None,
            tickets: vec![],
            hidden: false,
        }],
    };
    assert!(is_a_ticket_decision(&data, Some(7)));
    assert!(!is_a_ticket_decision(&data, Some(8)));
    assert!(!is_a_ticket_decision(&data, None));
}

#[test]
fn role_checks_pass_in_direct_messages() {
    assert!(matches!(has_role_decision(None, Err("down".to_string())), Ok(true)));
    assert!(matches!(has_role_decision(Some(1), Ok(false)), Ok(false)));
    assert!(matches!(has_role_decision(Some(1), Ok(true)), Ok(true)));
    match has_role_decision(Some(1), Err("down".to_string())) {
        Err(CommandMatch::Error(e)) => assert_eq!(e, "down"),
        _ => panic!("a provider failure is reported"),
    }
}

#[test]
fn add_member_refusals_and_failures_are_worded() {
    assert_eq!(
        add_member_refusal_text(AddMemberDecision::NotInGuild),
        Some("Cette commande n'est pas disponible dans un DM".to_string())
    );
    assert_eq!(
        add_member_refusal_text(AddMemberDecision::NotATicket),
        Some("Ce salon n'est pas un ticket".to_string())
    );
    assert_eq!(
        add_member_refusal_text(AddMemberDecision::NotPermitted),
        Some("Vous n'avez pas la permission d'ajouter des membres au ticket.".to_string())
    );
    assert_eq!(add_member_refusal_text(AddMemberDecision::Allowed), None);
    assert_eq!(
        member_add_failed_text(&"alice".to_string(), &"permissions".to_string()),
        "Impossible d'ajouter alice: permissions"
    );
}

#[test]
fn set_channel_texts_and_record_update() {
    assert_eq!(set_channel_done_text(), "Salon de création de tickets configuré");
    let mut store = Store::load(None).expect("default");
    assert!(store.try_acquire_write());
    store.set_menu_message(Some((5, 6)));
    assert_eq!(store.read().msg_choose, Some((5, 6)));
    store.set_menu_message(None);
    assert_eq!(store.read().msg_choose, None);
    let _ = store.release_write();
}

#[test]
fn ready_event_lines() {
    assert_eq!(connected_line(&"bot".to_string()), "bot is connected!");
    assert_eq!(invitation_line(&"https://x".to_string()), "Invitation: https://x");
}

#[test]
fn failure_descriptions_are_user_facing() {
    assert_eq!(MatchError::NotMatched.describe(), "Commande inconnue");
    assert_eq!(MatchError::PermissionDenied.describe(), "Permission refusée");
    assert_eq!(MatchError::MissingArgument.describe(), "Argument manquant");
    assert_eq!(MatchError::TooManyArguments.describe(), "Trop d'arguments");
    assert_eq!(MatchError::UnknownArgument.describe(), "Argument invalide");
}
