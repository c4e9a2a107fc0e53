//! The ticket-manager component's own logic: its persistent record (ticket
//! categories and the identifiers of the menu message), the operations on
//! it, and the decisions its handlers take. Everything here is a function
//! of plain values; fetching, sending and channel bookkeeping belong to the
//! gateway client.

use vstd::prelude::*;
use crate::decimal::all_digits;
use crate::decimal::digits_value;
use crate::decimal::parse_u64;
use crate::matcher::Matched;
use crate::matcher::MatchedView;
use crate::matcher::lemma_spec_find;
use crate::matcher::spec_find;
use crate::message::COLOR_INFO;
use crate::message::Embed;
use crate::message::EmbedField;
use crate::message::EmbedFieldView;
use crate::message::Message;
use crate::message::MessageView;
use crate::message::EmbedView;
use crate::tree::ArgKind;
use crate::tree::ArgSpec;
use crate::tree::Command;
use crate::tree::Group;

verus! {

/// One category of tickets: its menu name, the prefix of the channels
/// created for it, the platform identifier of the parent channel category,
/// an optional description, the tickets opened under it, and whether it is
/// hidden from the creation menu.
pub struct CategoryTicket {
    pub name: String,
    pub prefix: String,
    pub id: u64,
    pub desc: Option<String>,
    pub tickets: Vec<String>,
    pub hidden: bool,
}

/// The component's persistent record: the channel and message identifiers
/// of the creation menu, if one is posted, and the categories.
pub struct DataTickets {
    pub msg_choose: Option<(u64, u64)>,
    pub categories: Vec<CategoryTicket>,
}

#[verifier::ext_equal]
pub struct CategoryView {
    pub name: Seq<char>,
    pub prefix: Seq<char>,
    pub id: u64,
    pub desc: Option<Seq<char>>,
    pub tickets: Seq<Seq<char>>,
    pub hidden: bool,
}

#[verifier::ext_equal]
pub struct DataView {
    pub msg_choose: Option<(u64, u64)>,
    pub categories: Seq<CategoryView>,
}

impl View for CategoryTicket {
    type V = CategoryView;

    open spec fn view(&self) -> CategoryView {
        CategoryView {
            name: self.name@,
            prefix: self.prefix@,
            id: self.id,
            desc: match self.desc {
                Some(s) => Some(s@),
                None => None,
            },
            tickets: self.tickets.deep_view(),
            hidden: self.hidden,
        }
    }
}

impl View for DataTickets {
    type V = DataView;

    open spec fn view(&self) -> DataView {
        DataView {
            msg_choose: self.msg_choose,
            categories: Seq::new(self.categories@.len(), |i: int| self.categories@[i]@),
        }
    }
}

impl Default for DataTickets {
    /// The type-defined default the store starts from when no snapshot
    /// exists yet: no menu posted, no categories.
    fn default() -> (r: Self)
        ensures
            r@.msg_choose is None,
            r@.categories =~= Seq::<CategoryView>::empty(),
    {
        DataTickets { msg_choose: None, categories: Vec::new() }
    }
}

/// Failures of the category operations.
#[derive(Clone, Copy, Debug, PartialEq, Eq, Structural)]
pub enum TicketsError {
    CategoryExists,
    CategoryNotFound,
    StaffRoleMissing,
}

/// The names of the categories, in order.
pub open spec fn cat_names(cs: Seq<CategoryView>) -> Seq<Seq<char>> {
    Seq::new(cs.len(), |i: int| cs[i].name)
}

/// First category with this name, if any.
pub fn find_category(cats: &Vec<CategoryTicket>, name: &String) -> (r: Option<usize>)
    ensures
        match r {
            None => spec_find(cat_names(Seq::new(cats@.len(), |i: int| cats@[i]@)), name@)
                is None,
            Some(k) => k < cats@.len() && spec_find(
                cat_names(Seq::new(cats@.len(), |i: int| cats@[i]@)),
                name@,
            ) == Some(k as int),
        },
{
    let ghost names = cat_names(Seq::new(cats@.len(), |i: int| cats@[i]@));
    let mut i: usize = 0;
    while i < cats.len()
        invariant
            i <= cats@.len(),
            names == cat_names(Seq::new(cats@.len(), |i: int| cats@[i]@)),
            forall|j: int| 0 <= j < i ==> names[j] != name@,
        decreases cats.len() - i,
    {
        if cats[i].name.eq(name) {
            proof {
                assert(names[i as int] == name@);
                lemma_spec_find(names, name@);
            }
            return Some(i);
        }
        proof {
            assert(names[i as int] == cats@[i as int].name@);
        }
        i = i + 1;
    }
    proof {
        lemma_spec_find(names, name@);
    }
    None
}

/// Whether a category with this name exists.
pub open spec fn spec_has_category(d: DataView, name: Seq<char>) -> bool {
    exists|i: int| 0 <= i < d.categories.len() && (#[trigger] d.categories[i]).name == name
}

/// Add a category. A name already taken is refused, never merged; on
/// success the new category starts with no tickets.
pub fn add_category(
    data: &mut DataTickets,
    name: String,
    id: u64,
    prefix: String,
    hidden: bool,
    desc: Option<String>,
) -> (r: Result<(), TicketsError>)
    ensures
        match r {
            Ok(()) => !spec_has_category(old(data)@, name@) && final(data)@.categories
                == old(data)@.categories.push(
                CategoryView {
                    name: name@,
                    prefix: prefix@,
                    id: id,
                    desc: match desc {
                        Some(s) => Some(s@),
                        None => None,
                    },
                    tickets: Seq::empty(),
                    hidden: hidden,
                },
            ) && final(data)@.msg_choose == old(data)@.msg_choose,
            Err(TicketsError::CategoryExists) => spec_has_category(old(data)@, name@)
                && *final(data) == *old(data),
            Err(_) => false,
        },
{
    let ghost oldcats = data@.categories;
    match find_category(&data.categories, &name) {
        Some(k) => {
            proof {
                lemma_spec_find(cat_names(oldcats), name@);
            }
            Err(TicketsError::CategoryExists)
        },
        None => {
            proof {
                lemma_spec_find(cat_names(oldcats), name@);
                assert forall|i: int| 0 <= i < oldcats.len() implies (
                #[trigger] oldcats[i]).name != name@ by {
                    assert(cat_names(oldcats)[i] == oldcats[i].name);
                }
            }
            let ghost prevs = data.categories@;
            let c = CategoryTicket { name, prefix, id, desc, tickets: Vec::new(), hidden };
            data.categories.push(c);
            proof {
                assert(forall|i: int|
                    0 <= i < prevs.len() ==> data.categories@[i] == prevs[i]);
                assert(data@.categories =~~= oldcats.push(
                    CategoryView {
                        name: name@,
                        prefix: prefix@,
                        id: id,
                        desc: match desc {
                            Some(s) => Some(s@),
                            None => None,
                        },
                        tickets: Seq::empty(),
                        hidden: hidden,
                    },
                ));
            }
            Ok(())
        },
    }
}

/// Remove the category with this name. The removed category is handed back
/// so the caller can describe it in its reply.
pub fn remove_category(data: &mut DataTickets, name: &String) -> (r: Result<
    CategoryTicket,
    TicketsError,
>)
    ensures
        match r {
            Ok(c) => {
                &&& spec_find(cat_names(old(data)@.categories), name@) matches Some(k)
                &&& c@ == old(data)@.categories[spec_find(
                    cat_names(old(data)@.categories),
                    name@,
                ).unwrap()]
                &&& final(data)@.categories == old(data)@.categories.remove(
                    spec_find(cat_names(old(data)@.categories), name@).unwrap(),
                )
                &&& final(data)@.msg_choose == old(data)@.msg_choose
            },
            Err(TicketsError::CategoryNotFound) => spec_find(
                cat_names(old(data)@.categories),
                name@,
            ) is None && *final(data) == *old(data),
            Err(_) => false,
        },
{
    let ghost oldcats = data@.categories;
    match find_category(&data.categories, name) {
        Some(k) => {
            let ghost prevs = data.categories@;
            let c = data.categories.remove(k);
            proof {
                assert(data.categories@ == prevs.remove(k as int));
                assert forall|i: int| 0 <= i < data@.categories.len() implies data@.categories[i]
                    == oldcats.remove(k as int)[i] by {
                    if i < k {
                        assert(data.categories@[i] == prevs[i]);
                    } else {
                        assert(data.categories@[i] == prevs[i + 1]);
                    }
                }
                assert(data@.categories =~= oldcats.remove(k as int));
            }
            Ok(c)
        },
        None => Err(TicketsError::CategoryNotFound),
    }
}

/// The description of a category, or a placeholder where none was given.
pub open spec fn spec_desc_or(d: Option<Seq<char>>, dflt: Seq<char>) -> Seq<char> {
    match d {
        Some(s) => s,
        None => dflt,
    }
}

/// The reply describing one category under a given title.
pub open spec fn spec_category_message(c: CategoryView, title: Seq<char>) -> MessageView {
    MessageView {
        content: Seq::empty(),
        embeds: seq![
            EmbedView {
                title: title,
                description: Seq::empty(),
                color: COLOR_INFO,
                fields: seq![
                    EmbedFieldView {
                        name: c.name,
                        value: spec_desc_or(c.desc, "*Aucune description*"@),
                        inline: false,
                    },
                ],
            },
        ],
    }
}

/// The reply listing every category, one field each.
pub open spec fn spec_list_message(d: DataView) -> MessageView {
    MessageView {
        content: Seq::empty(),
        embeds: seq![
            EmbedView {
                title: "Liste des catégories"@,
                description: Seq::empty(),
                color: COLOR_INFO,
                fields: Seq::new(
                    d.categories.len(),
                    |i: int| EmbedFieldView {
                        name: d.categories[i].name,
                        value: spec_desc_or(d.categories[i].desc, "*Aucune desscription*"@),
                        inline: false,
                    },
                ),
            },
        ],
    }
}

impl CategoryTicket {
    /// The reply describing this category under the given title.
    pub fn to_message(&self, title: &str) -> (r: Message)
        ensures
            r@ == spec_category_message(self@, title@),
    {
        let value = match &self.desc {
            Some(s) => s.clone(),
            None => String::from_str("*Aucune description*"),
        };
        let mut fields: Vec<EmbedField> = Vec::new();
        fields.push(EmbedField { name: self.name.clone(), value, inline: false });
        let mut embeds: Vec<Embed> = Vec::new();
        embeds.push(
            Embed {
                title: String::from_str(title),
                description: String::new(),
                color: COLOR_INFO,
                fields,
            },
        );
        let m = Message { content: String::new(), embeds };
        proof {
            assert(m@ =~~= spec_category_message(self@, title@));
        }
        m
    }
}

/// The reply of the list command: every category, one field each, with its
/// description or a placeholder.
pub fn list_categories_message(data: &DataTickets) -> (r: Message)
    ensures
        r@ == spec_list_message(data@),
{
    let mut fields: Vec<EmbedField> = Vec::new();
    let mut i: usize = 0;
    while i < data.categories.len()
        invariant
            i <= data.categories@.len(),
            fields@.len() == i as int,
            forall|j: int|
                0 <= j < i ==> (#[trigger] fields@[j])@ == (EmbedFieldView {
                    name: data@.categories[j].name,
                    value: spec_desc_or(data@.categories[j].desc, "*Aucune desscription*"@),
                    inline: false,
                }),
        decreases data.categories.len() - i,
    {
        let c = &data.categories[i];
        let value = match &c.desc {
            Some(s) => s.clone(),
            None => String::from_str("*Aucune desscription*"),
        };
        let ghost prevs = fields@;
        fields.push(EmbedField { name: c.name.clone(), value, inline: false });
        proof {
            assert(forall|j: int| 0 <= j < prevs.len() ==> fields@[j] == prevs[j]);
        }
        i = i + 1;
    }
    let mut embeds: Vec<Embed> = Vec::new();
    embeds.push(
        Embed {
            title: String::from_str("Liste des catégories"),
            description: String::new(),
            color: COLOR_INFO,
            fields,
        },
    );
    let m = Message { content: String::new(), embeds };
    proof {
        assert(m@ =~~= spec_list_message(data@));
    }
    m
}

/// One entry of the ticket-creation select menu.
pub struct SelectOption {
    pub label: String,
    pub value: String,
    pub description: String,
}

#[verifier::ext_equal]
pub struct SelectOptionView {
    pub label: Seq<char>,
    pub value: Seq<char>,
    pub description: Seq<char>,
}

impl View for SelectOption {
    type V = SelectOptionView;

    open spec fn view(&self) -> SelectOptionView {
        SelectOptionView {
            label: self.label@,
            value: self.value@,
            description: self.description@,
        }
    }
}

impl DeepView for SelectOption {
    type V = SelectOptionView;

    open spec fn deep_view(&self) -> SelectOptionView {
        self@
    }
}

/// The menu entry of one category: labelled and valued by the category
/// name, described by its description or nothing.
pub open spec fn spec_menu_option(c: CategoryView) -> SelectOptionView {
    SelectOptionView {
        label: c.name,
        value: c.name,
        description: spec_desc_or(c.desc, Seq::empty()),
    }
}

/// The creation menu's entries: every category not hidden, in order.
pub open spec fn spec_menu_options(cs: Seq<CategoryView>) -> Seq<SelectOptionView>
    decreases cs.len(),
{
    if cs.len() == 0 {
        Seq::empty()
    } else {
        let rest = spec_menu_options(cs.drop_last());
        if cs.last().hidden {
            rest
        } else {
            rest.push(spec_menu_option(cs.last()))
        }
    }
}

/// Build the creation menu's entries from the record.
pub fn menu_options(data: &DataTickets) -> (r: Vec<SelectOption>)
    ensures
        r.deep_view() == spec_menu_options(data@.categories),
{
    let mut out: Vec<SelectOption> = Vec::new();
    let mut i: usize = 0;
    while i < data.categories.len()
        invariant
            i <= data.categories@.len(),
            out.deep_view() == spec_menu_options(data@.categories.subrange(0, i as int)),
        decreases data.categories.len() - i,
    {
        let ghost pre = data@.categories.subrange(0, i as int);
        let ghost next = data@.categories.subrange(0, i + 1);
        proof {
            assert(next.drop_last() =~= pre);
            assert(next.last() == data@.categories[i as int]);
        }
        let c = &data.categories[i];
        if !c.hidden {
            let description = match &c.desc {
                Some(s) => s.clone(),
                None => String::new(),
            };
            let ghost prevs = out@;
            out.push(SelectOption { label: c.name.clone(), value: c.name.clone(), description });
            proof {
                assert(forall|j: int| 0 <= j < prevs.len() ==> out@[j] == prevs[j]);
                assert(out.deep_view() =~~= spec_menu_options(next));
            }
        } else {
            proof {
                assert(out.deep_view() =~~= spec_menu_options(next));
            }
        }
        i = i + 1;
    }
    proof {
        assert(data@.categories.subrange(0, data@.categories.len() as int) =~= data@.categories);
    }
    out
}

/// Whether a channel whose parent is `parent_id` lies in one of the ticket
/// categories: the heart of the is-this-a-ticket test.
pub open spec fn spec_is_ticket_category(d: DataView, parent_id: u64) -> bool {
    exists|i: int| 0 <= i < d.categories.len() && (#[trigger] d.categories[i]).id == parent_id
}

pub fn is_ticket_category(data: &DataTickets, parent_id: u64) -> (b: bool)
    ensures
        b == spec_is_ticket_category(data@, parent_id),
{
    let mut i: usize = 0;
    while i < data.categories.len()
        invariant
            i <= data.categories@.len(),
            forall|j: int| 0 <= j < i ==> (#[trigger] data@.categories[j]).id != parent_id,
        decreases data.categories.len() - i,
    {
        if data.categories[i].id == parent_id {
            proof {
                assert(data@.categories[i as int].id == parent_id);
            }
            return true;
        }
        i = i + 1;
    }
    false
}

/// Record the creation menu's channel and message identifiers, or clear
/// them when the remembered message is gone.
pub fn reset_message_choose(data: &mut DataTickets, new_ids: Option<(u64, u64)>)
    ensures
        final(data)@.msg_choose == new_ids,
        final(data)@.categories == old(data)@.categories,
{
    data.msg_choose = new_ids;
}

/// The record side of assigning the ticket-creation channel: the freshly
/// posted menu message replaces the remembered one. Deleting the old
/// message and posting the new one are the caller's platform work; the old
/// identifiers to delete are whatever the record held before.
pub fn set_channel_record(data: &mut DataTickets, channel: u64, message: u64)
    ensures
        final(data)@.msg_choose == Some((channel, message)),
        final(data)@.categories == old(data)@.categories,
{
    data.msg_choose = Some((channel, message));
}

/// The content of the message that carries the ticket-creation menu.
pub fn choose_menu_text() -> (r: String)
    ensures
        r@ == "Sélectionnez le type de ticket que vous souhaitez créer :"@,
{
    String::from_str("Sélectionnez le type de ticket que vous souhaitez créer :")
}

/// Whether a channel is a ticket: it must have a parent channel, and that
/// parent must be one of the record's ticket categories.
pub fn is_a_ticket_decision(data: &DataTickets, parent: Option<u64>) -> (b: bool)
    ensures
        b == match parent {
            Some(p) => spec_is_ticket_category(data@, p),
            None => false,
        },
{
    match parent {
        Some(p) => is_ticket_category(data, p),
        None => false,
    }
}

/// What closing a ticket channel comes to once the platform has answered:
/// a channel that is no ticket is refused; a failed archival or deletion is
/// reported with its cause, and the steps run in that order.
pub fn close_ticket_decision(
    is_ticket: bool,
    archive: Result<(), String>,
    delete: Result<(), String>,
) -> (r: Result<(), String>)
    ensures
        match r {
            Ok(()) => is_ticket && archive is Ok && delete is Ok,
            Err(e) => (!is_ticket && e@ == "Ce n'est pas un ticket"@) || (is_ticket && (match (
                archive,
                delete,
            ) {
                (Err(a), _) => e@ == "Erreur lors de l'archivage du ticket: "@ + a@,
                (Ok(()), Err(d)) => e@ == "Erreur lors de la suppression du ticket: "@ + d@,
                (Ok(()), Ok(())) => false,
            })),
        },
{
    if !is_ticket {
        return Err(String::from_str("Ce n'est pas un ticket"));
    }
    match archive {
        Err(a) => {
            let mut s = String::from_str("Erreur lors de l'archivage du ticket: ");
            s.append(a.as_str());
            Err(s)
        },
        Ok(()) => match delete {
            Err(d) => {
                let mut s = String::from_str("Erreur lors de la suppression du ticket: ");
                s.append(d.as_str());
                Err(s)
            },
            Ok(()) => Ok(()),
        },
    }
}

/// Whom one access rule of a channel names.
#[derive(Clone, Copy, Debug, PartialEq, Eq, Structural)]
pub enum OverwriteKind {
    Member(u64),
    Role(u64),
}

/// One access rule of a channel: whether the named party may view it.
#[derive(Clone, Copy, Debug, PartialEq, Eq, Structural)]
pub struct OverwriteModel {
    pub kind: OverwriteKind,
    pub allow_view: bool,
}

/// The access rules of a new ticket channel: the opener and the staff role
/// see it, everyone else does not.
pub fn ticket_permissions(user: u64, staff_role: u64, everyone_role: u64) -> (r: Vec<
    OverwriteModel,
>)
    ensures
        r@.len() == 3,
        r@[0] == (OverwriteModel { kind: OverwriteKind::Member(user), allow_view: true }),
        r@[1] == (OverwriteModel { kind: OverwriteKind::Role(staff_role), allow_view: true }),
        r@[2] == (OverwriteModel { kind: OverwriteKind::Role(everyone_role), allow_view: false }),
{
    let mut r: Vec<OverwriteModel> = Vec::new();
    r.push(OverwriteModel { kind: OverwriteKind::Member(user), allow_view: true });
    r.push(OverwriteModel { kind: OverwriteKind::Role(staff_role), allow_view: true });
    r.push(OverwriteModel { kind: OverwriteKind::Role(everyone_role), allow_view: false });
    r
}

/// The name shown for a member: the platform name when it could be
/// fetched, the bare identifier otherwise.
pub fn display_user(name: Option<String>, id: u64) -> (r: String)
    ensures
        match name {
            Some(n) => r@ == n@,
            None => r@ == crate::decimal::spec_render_u64(id as int),
        },
{
    match name {
        Some(n) => n,
        None => crate::decimal::render_u64(id),
    }
}

/// The reply confirming a created ticket, pointing at its channel.
pub fn ticket_created_text(channel: u64) -> (r: String)
    ensures
        r@ == "Ticket créé: <#"@ + crate::decimal::spec_render_u64(channel as int) + ">"@,
{
    let mut s = String::from_str("Ticket créé: <#");
    s.append(crate::decimal::render_u64(channel).as_str());
    s.append(">");
    proof {
        assert(s@ =~= "Ticket créé: <#"@ + crate::decimal::spec_render_u64(channel as int)
            + ">"@);
    }
    s
}

/// The greeting pinned into a fresh ticket channel, addressed to its
/// opener.
pub fn ticket_presentation_text(user: u64) -> (r: String)
    ensures
        r@ == "Hey <@"@ + crate::decimal::spec_render_u64(user as int)
            + ">, par ici !\nDès que tu as fini avec le ticket, appuie sur le bouton \"Fermer le ticket\"."@,
{
    let mut s = String::from_str("Hey <@");
    s.append(crate::decimal::render_u64(user).as_str());
    s.append(">, par ici !\nDès que tu as fini avec le ticket, appuie sur le bouton \"Fermer le ticket\".");
    proof {
        assert(s@ =~= "Hey <@"@ + crate::decimal::spec_render_u64(user as int)
            + ">, par ici !\nDès que tu as fini avec le ticket, appuie sur le bouton \"Fermer le ticket\"."@);
    }
    s
}

/// The confirmation after adding a member to a ticket.
pub fn member_added_text(username: &String) -> (r: String)
    ensures
        r@ == username@ + " a bien été ajoutée."@,
{
    let mut s = username.clone();
    s.append(" a bien été ajoutée.");
    s
}

/// The failure reported when the platform refused to add a member to the
/// ticket, naming whom and why.
pub fn member_add_failed_text(who: &String, cause: &String) -> (r: String)
    ensures
        r@ == "Impossible d'ajouter "@ + who@ + ": "@ + cause@,
{
    let mut s = String::from_str("Impossible d'ajouter ");
    s.append(who.as_str());
    s.append(": ");
    s.append(cause.as_str());
    proof {
        assert(s@ =~= "Impossible d'ajouter "@ + who@ + ": "@ + cause@);
    }
    s
}

/// The confirmation after the ticket-creation channel is assigned.
pub fn set_channel_done_text() -> (r: String)
    ensures
        r@ == "Salon de création de tickets configuré"@,
{
    String::from_str("Salon de création de tickets configuré")
}

/// What the add-member command decides once the platform facts are in hand:
/// the guild check comes first, then the ticket check, then the permission
/// of the caller, who must be staff or the ticket's owner.
#[derive(Clone, Copy, Debug, PartialEq, Eq, Structural)]
pub enum AddMemberDecision {
    NotInGuild,
    NotATicket,
    NotPermitted,
    Allowed,
}

pub open spec fn spec_add_member_decision(
    in_guild: bool,
    is_ticket: bool,
    is_staff: bool,
    is_owner: bool,
) -> AddMemberDecision {
    if !in_guild {
        AddMemberDecision::NotInGuild
    } else if !is_ticket {
        AddMemberDecision::NotATicket
    } else if !is_staff && !is_owner {
        AddMemberDecision::NotPermitted
    } else {
        AddMemberDecision::Allowed
    }
}

pub fn add_member_decision(in_guild: bool, is_ticket: bool, is_staff: bool, is_owner: bool) -> (d:
    AddMemberDecision)
    ensures
        d == spec_add_member_decision(in_guild, is_ticket, is_staff, is_owner),
{
    if !in_guild {
        AddMemberDecision::NotInGuild
    } else if !is_ticket {
        AddMemberDecision::NotATicket
    } else if !is_staff && !is_owner {
        AddMemberDecision::NotPermitted
    } else {
        AddMemberDecision::Allowed
    }
}

/// The reply refusing an add-member request, one text per refusal; an
/// allowed request is refused nothing.
pub fn add_member_refusal_text(d: AddMemberDecision) -> (r: Option<String>)
    ensures
        match d {
            AddMemberDecision::NotInGuild => r matches Some(s) && s@
                == "Cette commande n'est pas disponible dans un DM"@,
            AddMemberDecision::NotATicket => r matches Some(s) && s@
                == "Ce salon n'est pas un ticket"@,
            AddMemberDecision::NotPermitted => r matches Some(s) && s@
                == "Vous n'avez pas la permission d'ajouter des membres au ticket."@,
            AddMemberDecision::Allowed => r is None,
        },
{
    match d {
        AddMemberDecision::NotInGuild => Some(
            String::from_str("Cette commande n'est pas disponible dans un DM"),
        ),
        AddMemberDecision::NotATicket => Some(String::from_str("Ce salon n'est pas un ticket")),
        AddMemberDecision::NotPermitted => Some(
            String::from_str("Vous n'avez pas la permission d'ajouter des membres au ticket."),
        ),
        AddMemberDecision::Allowed => None,
    }
}

/// The names of a guild's roles, in the order the caller hands them over.
pub open spec fn role_names(rs: Seq<(u64, String)>) -> Seq<Seq<char>> {
    Seq::new(rs.len(), |i: int| rs[i].1@)
}

/// The identifier of the first role named `staff`, if any.
pub fn find_staff_role(roles: &Vec<(u64, String)>) -> (r: Option<u64>)
    ensures
        match r {
            Some(id) => spec_find(role_names(roles@), "staff"@) matches Some(k) && id == roles@[k].0,
            None => spec_find(role_names(roles@), "staff"@) is None,
        },
{
    let staff = String::from_str("staff");
    let mut i: usize = 0;
    while i < roles.len()
        invariant
            i <= roles@.len(),
            staff@ == "staff"@,
            forall|j: int| 0 <= j < i ==> role_names(roles@)[j] != "staff"@,
        decreases roles.len() - i,
    {
        if roles[i].1.eq(&staff) {
            proof {
                assert(role_names(roles@)[i as int] == "staff"@);
                lemma_spec_find(role_names(roles@), "staff"@);
            }
            return Some(roles[i].0);
        }
        proof {
            assert(role_names(roles@)[i as int] == roles@[i as int].1@);
        }
        i = i + 1;
    }
    proof {
        lemma_spec_find(role_names(roles@), "staff"@);
    }
    None
}

/// Membership of an identifier in a list of identifiers.
pub fn contains_id(ids: &Vec<u64>, x: u64) -> (b: bool)
    ensures
        b == ids@.contains(x),
{
    let mut i: usize = 0;
    while i < ids.len()
        invariant
            i <= ids@.len(),
            forall|j: int| 0 <= j < i ==> ids@[j] != x,
        decreases ids.len() - i,
    {
        if ids[i] == x {
            return true;
        }
        i = i + 1;
    }
    false
}

/// Whether the member is staff: the guild must have a role named `staff`
/// (else the check itself fails), and the member must hold it.
pub fn is_staff_decision(roles: &Vec<(u64, String)>, member_roles: &Vec<u64>) -> (r: Result<
    bool,
    TicketsError,
>)
    ensures
        match r {
            Ok(b) => spec_find(role_names(roles@), "staff"@) matches Some(k) && b
                == member_roles@.contains(roles@[k].0),
            Err(TicketsError::StaffRoleMissing) => spec_find(role_names(roles@), "staff"@)
                is None,
            Err(_) => false,
        },
{
    match find_staff_role(roles) {
        Some(id) => Ok(contains_id(member_roles, id)),
        None => Err(TicketsError::StaffRoleMissing),
    }
}

/// Whether the caller owns the ticket: the pinned presentation message of a
/// ticket channel mentions its owner.
pub fn is_ticket_owner_decision(mentions: &Vec<u64>, user: u64) -> (b: bool)
    ensures
        b == mentions@.contains(user),
{
    contains_id(mentions, user)
}

/// The name of a ticket channel: the category prefix, a dash, the username.
pub fn ticket_channel_name(prefix: &str, username: &str) -> (r: String)
    ensures
        r@ == prefix@ + "-"@ + username@,
{
    let mut s = String::from_str(prefix);
    s.append("-");
    s.append(username);
    proof {
        assert(s@ =~= prefix@ + "-"@ + username@);
    }
    s
}

/// What a resolved command does to the record, and what comes back: either
/// a finished reply, or a deferral to the caller for the commands that need
/// platform work beyond this record.
pub enum TicketsOutcome {
    Reply(Message),
    Deferred,
}

#[verifier::ext_equal]
pub enum TicketsOutcomeView {
    Reply(MessageView),
    Deferred,
}

impl View for TicketsOutcome {
    type V = TicketsOutcomeView;

    open spec fn view(&self) -> TicketsOutcomeView {
        match self {
            TicketsOutcome::Reply(m) => TicketsOutcomeView::Reply(m@),
            TicketsOutcome::Deferred => TicketsOutcomeView::Deferred,
        }
    }
}

/// The ticket-manager component: its durable store. The archive folder and
/// every platform call around it belong to the gateway side.
pub struct Tickets {
    pub data: crate::store::Store,
}

impl Tickets {
    /// Build the component from the snapshot read off stable storage, if
    /// one exists.
    pub fn new(snapshot: Option<&String>) -> (r: Result<Tickets, crate::store::StoreError>)
        ensures
            match r {
                Ok(t) => t.data.inv() && t.data.spec_readers() == 0 && !t.data.spec_writing()
                    && match snapshot {
                    None => t.data.spec_value().msg_choose is None && t.data.spec_value().categories
                        =~= Seq::<CategoryView>::empty() && t.data.spec_disk() is None,
                    Some(s) => crate::codec::dec_data(s@) == Some(t.data.spec_value())
                        && t.data.spec_disk() == Some(s@),
                },
                Err(e) => e == crate::store::StoreError::Corrupt && (snapshot matches Some(s)
                    && crate::codec::dec_data(s@) is None),
            },
    {
        match crate::store::Store::load(snapshot) {
            Ok(data) => Ok(Tickets { data }),
            Err(e) => Err(e),
        }
    }

    /// The component's name.
    pub fn name(&self) -> (r: &'static str)
        ensures
            r@ == "tickets"@,
    {
        "tickets"
    }

    /// The component's command surface: category management and the
    /// commands available inside a ticket channel.
    pub fn group_tree() -> (r: Group)
        ensures
            r.name@ == "tickets"@,
            r.required_role is None,
            r.groups@.len() == 2,
            r.commands@.len() == 1,
            r.groups@[0].name@ == "categories"@,
            r.groups@[0].required_role is None,
            r.groups@[0].groups@.len() == 0,
            r.groups@[0].commands@.len() == 3,
            r.groups@[0].commands@[0].name@ == "add"@,
            r.groups@[0].commands@[0].required_role is None,
            crate::tree::arg_shape(r.groups@[0].commands@[0]) =~= seq![
                ("nom"@, ArgKind::Text, true),
                ("categorie_discord"@, ArgKind::Int, true),
                ("prefix"@, ArgKind::Text, true),
                ("hidden"@, ArgKind::Bool, true),
                ("description"@, ArgKind::Text, false),
            ],
            r.groups@[0].commands@[1].name@ == "remove"@,
            r.groups@[0].commands@[1].required_role is None,
            crate::tree::arg_shape(r.groups@[0].commands@[1]) =~= seq![
                ("nom"@, ArgKind::Text, true),
            ],
            r.groups@[0].commands@[2].name@ == "list"@,
            r.groups@[0].commands@[2].required_role is None,
            r.groups@[0].commands@[2].args@.len() == 0,
            r.groups@[1].name@ == "ticket"@,
            r.groups@[1].required_role is None,
            r.groups@[1].groups@.len() == 0,
            r.groups@[1].commands@.len() == 2,
            r.groups@[1].commands@[0].name@ == "close"@,
            r.groups@[1].commands@[0].args@.len() == 0,
            r.groups@[1].commands@[1].name@ == "add_member"@,
            crate::tree::arg_shape(r.groups@[1].commands@[1]) =~= seq![
                ("qui"@, ArgKind::Int, true),
            ],
            r.commands@[0].name@ == "set_channel"@,
            r.commands@[0].required_role is None,
            crate::tree::arg_shape(r.commands@[0]) =~= seq![("salon"@, ArgKind::Int, false)],
            crate::tree::group_wf(r),
    {
        let g = Group::new("tickets").set_help("Gestion des tickets").add_group(
            Group::new("categories").set_help("Gestion des catégories de tickets").add_command(
                Command::new("add").set_help(
                    "Ajoute une catégorie de ticket. À ne pas confondre avec les catégories discord",
                ).add_argument(ArgSpec::new("nom", ArgKind::Text, true)).add_argument(
                    ArgSpec::new("categorie_discord", ArgKind::Int, true),
                ).add_argument(ArgSpec::new("prefix", ArgKind::Text, true)).add_argument(
                    ArgSpec::new("hidden", ArgKind::Bool, true),
                ).add_argument(ArgSpec::new("description", ArgKind::Text, false)),
            ).add_command(
                Command::new("remove").set_help("Supprime une catégorie de ticket").add_argument(
                    ArgSpec::new("nom", ArgKind::Text, true),
                ),
            ).add_command(Command::new("list").set_help("Liste les catégories de ticket")),
        ).add_command(
            Command::new("set_channel").set_help("Assigne le salon de création de tickets")
                .add_argument(ArgSpec::new("salon", ArgKind::Int, false)),
        ).add_group(
            Group::new("ticket").set_help("Commandes dans un ticket").add_command(
                Command::new("close").set_help("Ferme le ticket actuel"),
            ).add_command(
                Command::new("add_member").set_help("Ajoute une personne au ticket").add_argument(
                    ArgSpec::new("qui", ArgKind::Int, true),
                ),
            ),
        );
        proof {
            reveal_strlit("categories");
            reveal_strlit("ticket");
            reveal_strlit("set_channel");
            reveal_strlit("add");
            reveal_strlit("remove");
            reveal_strlit("list");
            reveal_strlit("close");
            reveal_strlit("add_member");
            assert("add"@.len() == 3);
            assert("remove"@.len() == 6);
            assert("list"@.len() == 4);
            assert("close"@.len() == 5);
            assert("add_member"@.len() == 10);
            assert("categories"@.len() == 10);
            assert("ticket"@.len() == 6);
            assert("set_channel"@.len() == 11);
            let cat = g.groups@[0];
            let tik = g.groups@[1];
            assert(crate::tree::child_names(cat) =~= seq!["add"@, "remove"@, "list"@]);
            crate::tree::lemma_unique3(
                "add"@,
                "remove"@,
                "list"@,
                crate::tree::child_names(cat),
            );
            assert(crate::tree::group_wf(cat));
            assert(crate::tree::child_names(tik) =~= seq!["close"@, "add_member"@]);
            crate::tree::lemma_unique2("close"@, "add_member"@, crate::tree::child_names(tik));
            assert(crate::tree::group_wf(tik));
            assert(crate::tree::child_names(g) =~= seq![
                "categories"@,
                "ticket"@,
                "set_channel"@,
            ]);
            crate::tree::lemma_unique3(
                "categories"@,
                "ticket"@,
                "set_channel"@,
                crate::tree::child_names(g),
            );
            assert forall|i: int| 0 <= i < g.groups@.len() implies crate::tree::group_wf(
                #[trigger] g.groups@[i],
            ) by {
                if i == 0 {
                } else {
                }
            }
            assert(crate::tree::group_wf(g));
        }
        g
    }
}

/// The token bound to slot `i`, if that slot exists and was filled.
pub open spec fn spec_arg_opt(m: MatchedView, i: int) -> Option<Seq<char>> {
    if 0 <= i < m.args.len() {
        m.args[i].1
    } else {
        None
    }
}

/// The record transition and reply of one resolved command. The category
/// commands are decided here in full; everything else is deferred to the
/// caller, which owns the platform side.
pub open spec fn spec_handle(d: DataView, m: MatchedView) -> (DataView, TicketsOutcomeView) {
    if m.command == "list"@ {
        (d, TicketsOutcomeView::Reply(spec_list_message(d)))
    } else if m.command == "add"@ {
        match (spec_arg_opt(m, 0), spec_arg_opt(m, 1), spec_arg_opt(m, 2), spec_arg_opt(m, 3)) {
            (Some(name), Some(idtok), Some(prefix), Some(hid)) => {
                if !(idtok.len() > 0 && all_digits(idtok) && digits_value(idtok) <= u64::MAX) {
                    (
                        d,
                        TicketsOutcomeView::Reply(
                            crate::message::spec_themed(
                                "Erreur"@,
                                crate::message::COLOR_ERROR,
                                "Catégorie Discord invalide"@,
                            ),
                        ),
                    )
                } else if spec_has_category(d, name) {
                    (
                        d,
                        TicketsOutcomeView::Reply(
                            crate::message::spec_themed(
                                "Erreur"@,
                                crate::message::COLOR_ERROR,
                                "Cette catégorie existe déjà"@,
                            ),
                        ),
                    )
                } else {
                    let c = CategoryView {
                        name: name,
                        prefix: prefix,
                        id: digits_value(idtok) as u64,
                        desc: spec_arg_opt(m, 4),
                        tickets: Seq::empty(),
                        hidden: hid == "true"@,
                    };
                    (
                        DataView { msg_choose: d.msg_choose, categories: d.categories.push(c) },
                        TicketsOutcomeView::Reply(spec_category_message(c, "Catégorie créée"@)),
                    )
                }
            },
            _ => (d, TicketsOutcomeView::Deferred),
        }
    } else if m.command == "remove"@ {
        match spec_arg_opt(m, 0) {
            Some(name) => match spec_find(cat_names(d.categories), name) {
                Some(k) => (
                    DataView { msg_choose: d.msg_choose, categories: d.categories.remove(k) },
                    TicketsOutcomeView::Reply(
                        spec_category_message(d.categories[k], "Catégorie supprimée"@),
                    ),
                ),
                None => (
                    d,
                    TicketsOutcomeView::Reply(
                        crate::message::spec_themed(
                            "Erreur"@,
                            crate::message::COLOR_ERROR,
                            "Cette catégorie n'existe pas"@,
                        ),
                    ),
                ),
            },
            None => (d, TicketsOutcomeView::Deferred),
        }
    } else {
        (d, TicketsOutcomeView::Deferred)
    }
}

/// The token bound to slot `i`, if filled.
fn arg_at<'a>(m: &'a Matched, i: usize) -> (r: Option<&'a String>)
    ensures
        match r {
            Some(s) => spec_arg_opt(m@, i as int) == Some(s@),
            None => spec_arg_opt(m@, i as int) is None,
        },
{
    if i < m.args.len() {
        proof {
            assert(m@.args[i as int] == (
                m.args@[i as int].0@,
                match m.args@[i as int].1 {
                    Some(s) => Some(s@),
                    None => None,
                },
            ));
        }
        match &m.args[i].1 {
            Some(s) => Some(s),
            None => None,
        }
    } else {
        None
    }
}

/// Apply one resolved command to the record. The reply and the new record
/// are exactly those of `spec_handle`.
pub fn handle_command(data: &mut DataTickets, m: &Matched) -> (r: TicketsOutcome)
    ensures
        final(data)@ == spec_handle(old(data)@, m@).0,
        r@ == spec_handle(old(data)@, m@).1,
{
    let cmd_list = String::from_str("list");
    let cmd_add = String::from_str("add");
    let cmd_remove = String::from_str("remove");
    if m.command.eq(&cmd_list) {
        return TicketsOutcome::Reply(list_categories_message(data));
    }
    if m.command.eq(&cmd_add) {
        let name = arg_at(m, 0);
        let idtok = arg_at(m, 1);
        let prefix = arg_at(m, 2);
        let hid = arg_at(m, 3);
        match (name, idtok, prefix, hid) {
            (Some(name), Some(idtok), Some(prefix), Some(hid)) => {
                let id = match parse_u64(idtok) {
                    Some(v) => v,
                    None => {
                        return TicketsOutcome::Reply(
                            crate::message::error("Catégorie Discord invalide"),
                        );
                    },
                };
                let hidden = hid.eq(&String::from_str("true"));
                let desc = match arg_at(m, 4) {
                    Some(s) => Some(s.clone()),
                    None => None,
                };
                let name = name.clone();
                let prefix = prefix.clone();
                match add_category(data, name, id, prefix, hidden, desc) {
                    Ok(()) => {
                        let last = data.categories.len() - 1;
                        let reply = data.categories[last].to_message("Catégorie créée");
                        proof {
                            let nm = spec_arg_opt(m@, 0).unwrap();
                            let idt = spec_arg_opt(m@, 1).unwrap();
                            let cspec = CategoryView {
                                name: nm,
                                prefix: spec_arg_opt(m@, 2).unwrap(),
                                id: digits_value(idt) as u64,
                                desc: spec_arg_opt(m@, 4),
                                tickets: Seq::empty(),
                                hidden: spec_arg_opt(m@, 3).unwrap() == "true"@,
                            };
                            assert(m@.command == "add"@ && m@.command != "list"@);
                            assert(idt.len() > 0 && all_digits(idt) && digits_value(idt)
                                <= u64::MAX);
                            assert(!spec_has_category(old(data)@, nm));
                            assert(spec_handle(old(data)@, m@).1 == TicketsOutcomeView::Reply(
                                spec_category_message(cspec, "Catégorie créée"@),
                            ));
                            assert(data@.categories.last() =~~= cspec);
                            assert(reply@ =~~= spec_category_message(cspec, "Catégorie créée"@));
                            assert(data@ =~~= spec_handle(old(data)@, m@).0);
                            assert(TicketsOutcomeView::Reply(reply@) =~~= spec_handle(
                                old(data)@,
                                m@,
                            ).1);
                        }
                        TicketsOutcome::Reply(reply)
                    },
                    Err(_) => TicketsOutcome::Reply(
                        crate::message::error("Cette catégorie existe déjà"),
                    ),
                }
            },
            _ => TicketsOutcome::Deferred,
        }
    } else if m.command.eq(&cmd_remove) {
        match arg_at(m, 0) {
            Some(name) => {
                let name = name.clone();
                match remove_category(data, &name) {
                    Ok(c) => {
                        let reply = c.to_message("Catégorie supprimée");
                        proof {
                            assert(data@ =~~= spec_handle(old(data)@, m@).0);
                        }
                        TicketsOutcome::Reply(reply)
                    },
                    Err(_) => TicketsOutcome::Reply(
                        crate::message::error("Cette catégorie n'existe pas"),
                    ),
                }
            },
            None => TicketsOutcome::Deferred,
        }
    } else {
        TicketsOutcome::Deferred
    }
}

} // verus!
