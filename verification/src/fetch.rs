//! From what a fetch brought back to a preview or a whole message.

use crate::attachment::opt_text;
use crate::body_structure::{attachments, Body, BodyStructure, BodyStructureParser};
use crate::builder::{BuilderView, MessageBuilder};
use crate::content::ContentView;
use crate::error::{Error, ErrorKind};
use crate::flag::{flag_views, Flag, FlagView};
use crate::message::{message_of, preview_of, Message, MessageView, Preview, PreviewView};
use crate::parser::{builder_of, from_rfc822, parsed_mail};
use crate::text::{decimal, decimal_text};
use vstd::prelude::*;

verus! {

/// What a [`FetchedItem`] holds.
pub struct FetchedView {
    pub uid: Option<u32>,
    pub flags: Seq<FlagView>,
    pub header: Option<Seq<u8>>,
    pub bodystructure: Option<Body>,
}

/// What a fetch brought back for one message: each piece is there if the
/// server sent it.
#[derive(Debug)]
pub struct FetchedItem {
    pub uid: Option<u32>,
    pub flags: Vec<Flag>,
    pub header: Option<Vec<u8>>,
    pub bodystructure: Option<BodyStructure>,
}

impl View for FetchedItem {
    type V = FetchedView;

    open spec fn view(&self) -> FetchedView {
        FetchedView {
            uid: self.uid,
            flags: flag_views(self.flags@),
            header: match self.header {
                Some(header) => Some(header@),
                None => None,
            },
            bodystructure: match self.bodystructure {
                Some(structure) => Some(structure@),
                None => None,
            },
        }
    }
}

/// What is known of a fetched message before it is built: what its header
/// says, then its flags, its attachments and its id, which is its unique id
/// in decimal. A piece that was asked for and did not come is unexpected
/// behaviour of the server.
pub open spec fn fetched_builder(item: FetchedView) -> Result<BuilderView, ErrorKind> {
    if item.bodystructure is None || item.header is None || item.uid is None {
        Err(ErrorKind::UnexpectedBehavior)
    } else {
        match parsed_mail(item.header->0) {
            None => Err(ErrorKind::ParseMessage),
            Some(mail) => match builder_of(mail) {
                Err(kind) => Err(kind),
                Ok(builder) => Ok(
                    BuilderView {
                        flags: builder.flags + item.flags,
                        attachments: attachments(item.bodystructure->0, Seq::empty()),
                        id: Some(decimal(item.uid->0 as nat)),
                        ..builder
                    },
                ),
            },
        }
    }
}

/// The preview of a fetched message, or why there is none.
pub open spec fn fetched_preview(item: FetchedView) -> Result<PreviewView, ErrorKind> {
    match fetched_builder(item) {
        Err(kind) => Err(kind),
        Ok(builder) => match preview_of(builder) {
            Some(preview) => Ok(preview),
            None => Err(ErrorKind::InvalidMessage),
        },
    }
}

/// The builder with the content that was fetched for it: the html first,
/// then the text, each where it was fetched.
pub open spec fn with_content(builder: BuilderView, text: Option<Seq<char>>, html: Option<Seq<char>>) -> BuilderView {
    BuilderView {
        content: ContentView {
            text: match text {
                Some(text) => Some(text),
                None => builder.content.text,
            },
            html: match html {
                Some(html) => Some(html),
                None => builder.content.html,
            },
        },
        ..builder
    }
}

/// The whole message of a fetched message and its fetched content, or why
/// there is none.
pub open spec fn fetched_message(item: FetchedView, text: Option<Seq<char>>, html: Option<Seq<char>>) -> Result<
    MessageView,
    ErrorKind,
> {
    match fetched_builder(item) {
        Err(kind) => Err(kind),
        Ok(builder) => match message_of(with_content(builder, text, html)) {
            Some(message) => Ok(message),
            None => Err(ErrorKind::InvalidMessage),
        },
    }
}

fn builder_from_fetch(item: FetchedItem) -> (builder: Result<MessageBuilder, Error>)
    ensures
        match builder {
            Ok(b) => fetched_builder(item@) == Ok::<BuilderView, ErrorKind>(b@),
            Err(e) => fetched_builder(item@) == Err::<BuilderView, ErrorKind>(e@.kind),
        },
{
    let structure = match &item.bodystructure {
        Some(structure) => structure,
        None => {
            return Err(
                Error::new(
                    ErrorKind::UnexpectedBehavior,
                    "The body structure was asked for and did not come".to_owned(),
                ),
            );
        },
    };
    let header = match &item.header {
        Some(header) => header,
        None => {
            return Err(
                Error::new(
                    ErrorKind::UnexpectedBehavior,
                    "The header was asked for and did not come".to_owned(),
                ),
            );
        },
    };
    let uid = match item.uid {
        Some(uid) => uid,
        None => {
            return Err(
                Error::new(
                    ErrorKind::UnexpectedBehavior,
                    "The unique id was asked for and did not come".to_owned(),
                ),
            );
        },
    };
    let found = BodyStructureParser::new(structure).extract_attachments();
    let builder = match from_rfc822(header) {
        Ok(builder) => builder,
        Err(e) => {
            return Err(e);
        },
    };
    let id = decimal_text(uid as u64);
    Ok(builder.flags(item.flags).attachments(found).id(id.as_str()))
}

/// The preview of a message, from what a fetch of previews brought back for it.
pub fn preview_from_fetch(item: FetchedItem) -> (preview: Result<Preview, Error>)
    ensures
        match preview {
            Ok(p) => fetched_preview(item@) == Ok::<PreviewView, ErrorKind>(p@),
            Err(e) => fetched_preview(item@) == Err::<PreviewView, ErrorKind>(e@.kind),
        },
{
    match builder_from_fetch(item) {
        Ok(builder) => Preview::from_builder(builder),
        Err(e) => Err(e),
    }
}

/// The whole message, from what the first fetch brought back for it and the
/// content that the second fetch brought, if there was one.
pub fn message_from_fetch(item: FetchedItem, text: Option<String>, html: Option<String>) -> (message:
    Result<Message, Error>)
    ensures
        match message {
            Ok(m) => fetched_message(item@, opt_text(text), opt_text(html)) == Ok::<
                MessageView,
                ErrorKind,
            >(m@),
            Err(e) => fetched_message(item@, opt_text(text), opt_text(html)) == Err::<
                MessageView,
                ErrorKind,
            >(e@.kind),
        },
{
    match builder_from_fetch(item) {
        Ok(builder) => {
            let mut builder = builder;
            if let Some(html) = &html {
                builder = builder.html(html.as_str());
            }
            if let Some(text) = &text {
                builder = builder.text(text.as_str());
            }
            Message::from_builder(builder)
        },
        Err(e) => Err(e),
    }
}

/// The builder of a message that was read from its bytes, with its id and its flags.
pub open spec fn read_builder(bytes: Seq<u8>, id: Seq<char>, flags: Seq<FlagView>) -> Result<
    BuilderView,
    ErrorKind,
> {
    match parsed_mail(bytes) {
        None => Err(ErrorKind::ParseMessage),
        Some(mail) => match builder_of(mail) {
            Err(kind) => Err(kind),
            Ok(builder) => Ok(BuilderView { flags: builder.flags + flags, id: Some(id), ..builder }),
        },
    }
}

impl Message {
    /// The whole message, from its bytes as RFC 822 lays them out, with the
    /// id and the flags that the server knows it by.
    pub fn from_rfc822(bytes: &Vec<u8>, message_id: &str, flags: Vec<Flag>) -> (message: Result<
        Message,
        Error,
    >)
        ensures
            match message {
                Ok(m) => read_builder(bytes@, message_id@, flag_views(flags@)) matches Ok(b)
                    && message_of(b) == Some(m@),
                Err(e) => match read_builder(bytes@, message_id@, flag_views(flags@)) {
                    Ok(b) => message_of(b) is None && e@.kind == ErrorKind::InvalidMessage,
                    Err(kind) => e@.kind == kind,
                },
            },
    {
        match from_rfc822(bytes) {
            Ok(builder) => Message::from_builder(builder.flags(flags).id(message_id)),
            Err(e) => Err(e),
        }
    }
}

impl Preview {
    /// The preview of a message, from its bytes as RFC 822 lays them out,
    /// with the id and the flags that the server knows it by.
    pub fn from_rfc822(bytes: &Vec<u8>, message_id: &str, flags: Vec<Flag>) -> (preview: Result<
        Preview,
        Error,
    >)
        ensures
            match preview {
                Ok(p) => read_builder(bytes@, message_id@, flag_views(flags@)) matches Ok(b)
                    && preview_of(b) == Some(p@),
                Err(e) => match read_builder(bytes@, message_id@, flag_views(flags@)) {
                    Ok(b) => preview_of(b) is None && e@.kind == ErrorKind::InvalidMessage,
                    Err(kind) => e@.kind == kind,
                },
            },
    {
        match from_rfc822(bytes) {
            Ok(builder) => Preview::from_builder(builder.flags(flags).id(message_id)),
            Err(e) => Err(e),
        }
    }
}

/// The first of the items that a fetch by unique id brought back, which is
/// the message; without it the message is not found.
pub fn single_fetch(items: Vec<FetchedItem>, uid: &str) -> (item: Result<FetchedItem, Error>)
    ensures
        match item {
            Ok(first) => items@.len() > 0 && first == items@[0],
            Err(e) => items@.len() == 0 && e@.kind == ErrorKind::MessageNotFound,
        },
{
    let mut items = items;
    if items.len() > 0 {
        Ok(items.remove(0))
    } else {
        Err(Error::about(ErrorKind::MessageNotFound, "Could not find a message with id ", uid))
    }
}

} // verus!
