//! The outward reply model: a message carries embeds, an embed a title, a
//! description, a color and named fields. The core only produces these
//! values; formatting and delivery belong to the gateway client.

use vstd::prelude::*;

verus! {

pub const COLOR_INFO: u32 = 0x00C9FF;

pub const COLOR_SUCCESS: u32 = 0x1ED760;

pub const COLOR_ERROR: u32 = 0xFF0000;

/// One named field of an embed.
pub struct EmbedField {
    pub name: String,
    pub value: String,
    pub inline: bool,
}

/// A rich block of a reply.
pub struct Embed {
    pub title: String,
    pub description: String,
    pub color: u32,
    pub fields: Vec<EmbedField>,
}

/// A reply handed back to the gateway client for delivery.
pub struct Message {
    pub content: String,
    pub embeds: Vec<Embed>,
}

#[verifier::ext_equal]
pub struct EmbedFieldView {
    pub name: Seq<char>,
    pub value: Seq<char>,
    pub inline: bool,
}

#[verifier::ext_equal]
pub struct EmbedView {
    pub title: Seq<char>,
    pub description: Seq<char>,
    pub color: u32,
    pub fields: Seq<EmbedFieldView>,
}

#[verifier::ext_equal]
pub struct MessageView {
    pub content: Seq<char>,
    pub embeds: Seq<EmbedView>,
}

impl View for EmbedField {
    type V = EmbedFieldView;

    open spec fn view(&self) -> EmbedFieldView {
        EmbedFieldView { name: self.name@, value: self.value@, inline: self.inline }
    }
}

impl View for Embed {
    type V = EmbedView;

    open spec fn view(&self) -> EmbedView {
        EmbedView {
            title: self.title@,
            description: self.description@,
            color: self.color,
            fields: Seq::new(self.fields@.len(), |i: int| self.fields@[i]@),
        }
    }
}

impl View for Message {
    type V = MessageView;

    open spec fn view(&self) -> MessageView {
        MessageView {
            content: self.content@,
            embeds: Seq::new(self.embeds@.len(), |i: int| self.embeds@[i]@),
        }
    }
}

/// A one-embed reply built from a title, a color and a description.
pub open spec fn spec_themed(title: Seq<char>, color: u32, text: Seq<char>) -> MessageView {
    MessageView {
        content: Seq::empty(),
        embeds: seq![
            EmbedView {
                title: title,
                description: text,
                color: color,
                fields: Seq::empty(),
            },
        ],
    }
}

fn themed(title: &str, color: u32, text: &str) -> (r: Message)
    ensures
        r@ == spec_themed(title@, color, text@),
{
    let e = Embed {
        title: String::from_str(title),
        description: String::from_str(text),
        color,
        fields: Vec::new(),
    };
    let mut embeds: Vec<Embed> = Vec::new();
    embeds.push(e);
    let m = Message { content: String::new(), embeds };
    proof {
        assert(m@.embeds =~~= spec_themed(title@, color, text@).embeds);
        assert(m@ =~~= spec_themed(title@, color, text@));
    }
    m
}

/// A success reply: one green embed carrying the text.
pub fn success(text: &str) -> (r: Message)
    ensures
        r@ == spec_themed(""@, COLOR_SUCCESS, text@),
{
    themed("", COLOR_SUCCESS, text)
}

/// An error reply: one red embed titled as an error, carrying the text.
pub fn error(text: &str) -> (r: Message)
    ensures
        r@ == spec_themed("Erreur"@, COLOR_ERROR, text@),
{
    themed("Erreur", COLOR_ERROR, text)
}

} // verus!
