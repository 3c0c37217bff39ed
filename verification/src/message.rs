//! Messages as they are retrieved: the preview of a message, and the whole of it.

use crate::address::{
    borrowed_views, mailboxes, opt_address, Address, AddressView, EmailAddressView,
};
use crate::attachment::{attachment_views, opt_text, Attachment, AttachmentView};
use crate::builder::{BuilderView, MessageBuilder};
use crate::content::{Content, ContentView};
use crate::error::{Error, ErrorKind};
use crate::flag::{flag_views, Flag, FlagView};
use crate::headers::Headers;
use crate::pairs::Pairs;
use vstd::prelude::*;

verus! {

/// What a [`Preview`] holds.
pub struct PreviewView {
    pub from: AddressView,
    pub flags: Seq<FlagView>,
    pub id: Seq<char>,
    pub sent: Option<i64>,
    pub subject: Option<Seq<char>>,
}

/// What is shown of a message in a list of messages.
#[derive(Debug)]
pub struct Preview {
    from: Address,
    flags: Vec<Flag>,
    id: String,
    sent: Option<i64>,
    subject: Option<String>,
}

impl View for Preview {
    type V = PreviewView;

    closed spec fn view(&self) -> PreviewView {
        PreviewView {
            from: self.from@,
            flags: flag_views(self.flags@),
            id: self.id@,
            sent: self.sent,
            subject: opt_text(self.subject),
        }
    }
}

/// The preview that a builder stands for, if it knows the id and the sender.
/// A message with attachments is flagged as having them.
pub open spec fn preview_of(builder: BuilderView) -> Option<PreviewView> {
    if builder.id is Some && builder.from is Some {
        Some(
            PreviewView {
                from: builder.from->0,
                flags: if builder.attachments.len() > 0 {
                    builder.flags.push(FlagView::HasAttachment)
                } else {
                    builder.flags
                },
                id: builder.id->0,
                sent: builder.sent,
                subject: builder.subject,
            },
        )
    } else {
        None
    }
}

impl Preview {
    pub fn new(from: Address, flags: Vec<Flag>, id: &str, sent: Option<i64>, subject: Option<String>) -> (preview:
        Self)
        ensures
            preview@ == (PreviewView {
                from: from@,
                flags: flag_views(flags@),
                id: id@,
                sent,
                subject: opt_text(subject),
            }),
    {
        Self { from, flags, id: id.to_owned(), sent, subject }
    }

    /// The preview that a builder stands for. It fails where the builder
    /// does not know the id or the sender of the message.
    pub fn from_builder(builder: MessageBuilder) -> (preview: Result<Preview, Error>)
        ensures
            match preview {
                Ok(p) => preview_of(builder@) == Some(p@),
                Err(e) => preview_of(builder@) is None && e@.kind == ErrorKind::InvalidMessage,
            },
    {
        let parts = builder.into_parts();
        let id = match parts.id {
            Some(id) => id,
            None => {
                return Err(
                    Error::new(ErrorKind::InvalidMessage, "Message is missing identifier".to_owned()),
                );
            },
        };
        let from = match parts.from {
            Some(from) => from,
            None => {
                return Err(
                    Error::new(ErrorKind::InvalidMessage, "Message is missing sender".to_owned()),
                );
            },
        };
        let mut flags = parts.flags;
        if parts.attachments.len() > 0 {
            let ghost before = flag_views(flags@);
            flags.push(Flag::HasAttachment);
            assert(flag_views(flags@) =~= before.push(FlagView::HasAttachment));
        }
        Ok(Preview { flags, from, id, sent: parts.sent, subject: parts.subject })
    }

    /// The sender of the message.
    pub fn from(&self) -> (from: &Address)
        ensures
            from@ == self@.from,
    {
        &self.from
    }

    /// The flags that say whether the message has been read, deleted and so on.
    pub fn flags(&self) -> (flags: &Vec<Flag>)
        ensures
            flag_views(flags@) == self@.flags,
    {
        &self.flags
    }

    /// A strictly unique id, by which more of the message is fetched.
    pub fn id(&self) -> (id: &str)
        ensures
            id@ == self@.id,
    {
        self.id.as_str()
    }

    /// When the message was sent, in seconds since the epoch.
    pub fn sent(&self) -> (sent: Option<&i64>)
        ensures
            match sent {
                Some(s) => self@.sent == Some(*s),
                None => self@.sent is None,
            },
    {
        self.sent.as_ref()
    }

    /// What the message is about.
    pub fn subject(&self) -> (subject: Option<&str>)
        ensures
            match subject {
                Some(s) => self@.subject == Some(s@),
                None => self@.subject is None,
            },
    {
        match &self.subject {
            Some(subject) => Some(subject.as_str()),
            None => None,
        }
    }
}

/// What a [`Message`] holds.
pub struct MessageView {
    pub from: AddressView,
    pub to: AddressView,
    pub cc: Option<AddressView>,
    pub bcc: Option<AddressView>,
    pub headers: Pairs<Seq<char>>,
    pub flags: Seq<FlagView>,
    pub id: Seq<char>,
    pub sent: Option<i64>,
    pub subject: Option<Seq<char>>,
    pub attachments: Seq<AttachmentView>,
    pub content: ContentView,
}

/// A whole message.
#[derive(Debug)]
pub struct Message {
    from: Address,
    to: Address,
    cc: Option<Address>,
    bcc: Option<Address>,
    headers: Headers,
    flags: Vec<Flag>,
    id: String,
    sent: Option<i64>,
    subject: Option<String>,
    attachments: Vec<Attachment>,
    content: Content,
}

impl View for Message {
    type V = MessageView;

    closed spec fn view(&self) -> MessageView {
        MessageView {
            from: self.from@,
            to: self.to@,
            cc: opt_address(self.cc),
            bcc: opt_address(self.bcc),
            headers: self.headers@,
            flags: flag_views(self.flags@),
            id: self.id@,
            sent: self.sent,
            subject: opt_text(self.subject),
            attachments: attachment_views(self.attachments@),
            content: self.content@,
        }
    }
}

/// The message that a builder stands for, if it knows the id, the sender and
/// the receiver. A builder without header fields gives a message without them.
pub open spec fn message_of(builder: BuilderView) -> Option<MessageView> {
    if builder.id is Some && builder.from is Some && builder.to is Some {
        Some(
            MessageView {
                from: builder.from->0,
                to: builder.to->0,
                cc: builder.cc,
                bcc: builder.bcc,
                headers: match builder.headers {
                    Some(headers) => headers,
                    None => Pairs::<Seq<char>>::empty(),
                },
                flags: builder.flags,
                id: builder.id->0,
                sent: builder.sent,
                subject: builder.subject,
                attachments: builder.attachments,
                content: builder.content,
            },
        )
    } else {
        None
    }
}

/// Everything that a whole message holds, by value.
pub struct MessageParts {
    pub from: Address,
    pub to: Address,
    pub cc: Option<Address>,
    pub bcc: Option<Address>,
    pub headers: Headers,
    pub flags: Vec<Flag>,
    pub id: String,
    pub sent: Option<i64>,
    pub subject: Option<String>,
    pub attachments: Vec<Attachment>,
    pub content: Content,
}

impl View for MessageParts {
    type V = MessageView;

    open spec fn view(&self) -> MessageView {
        MessageView {
            from: self.from@,
            to: self.to@,
            cc: opt_address(self.cc),
            bcc: opt_address(self.bcc),
            headers: self.headers@,
            flags: flag_views(self.flags@),
            id: self.id@,
            sent: self.sent,
            subject: opt_text(self.subject),
            attachments: attachment_views(self.attachments@),
            content: self.content@,
        }
    }
}

impl Message {
    /// The message that holds the given parts.
    pub fn new(parts: MessageParts) -> (message: Self)
        ensures
            message@ == parts@,
    {
        Message {
            from: parts.from,
            to: parts.to,
            cc: parts.cc,
            bcc: parts.bcc,
            headers: parts.headers,
            flags: parts.flags,
            id: parts.id,
            sent: parts.sent,
            subject: parts.subject,
            attachments: parts.attachments,
            content: parts.content,
        }
    }

    /// The message that a builder stands for. It fails where the builder does
    /// not know the id, the sender or the receiver of the message.
    pub fn from_builder(builder: MessageBuilder) -> (message: Result<Message, Error>)
        ensures
            match message {
                Ok(m) => message_of(builder@) == Some(m@),
                Err(e) => message_of(builder@) is None && e@.kind == ErrorKind::InvalidMessage,
            },
    {
        let parts = builder.into_parts();
        let id = match parts.id {
            Some(id) => id,
            None => {
                return Err(
                    Error::new(ErrorKind::InvalidMessage, "Missing message identifier".to_owned()),
                );
            },
        };
        let from = match parts.from {
            Some(from) => from,
            None => {
                return Err(Error::new(ErrorKind::InvalidMessage, "Missing message sender".to_owned()));
            },
        };
        let to = match parts.to {
            Some(to) => to,
            None => {
                return Err(
                    Error::new(ErrorKind::InvalidMessage, "Missing message receiver".to_owned()),
                );
            },
        };
        let headers = match parts.headers {
            Some(headers) => headers,
            None => Headers::new(),
        };
        Ok(
            Message {
                flags: parts.flags,
                to,
                from,
                bcc: parts.bcc,
                cc: parts.cc,
                id,
                sent: parts.sent,
                subject: parts.subject,
                content: parts.content,
                attachments: parts.attachments,
                headers,
            },
        )
    }

    /// The header fields of the message.
    pub fn headers(&self) -> (headers: &Headers)
        ensures
            headers@ == self@.headers,
    {
        &self.headers
    }

    /// The flags that say whether the message has been read, deleted and so on.
    pub fn flags(&self) -> (flags: &Vec<Flag>)
        ensures
            flag_views(flags@) == self@.flags,
    {
        &self.flags
    }

    /// A strictly unique id.
    pub fn id(&self) -> (id: &str)
        ensures
            id@ == self@.id,
    {
        self.id.as_str()
    }

    /// When the message was sent, in seconds since the epoch.
    pub fn sent(&self) -> (sent: Option<&i64>)
        ensures
            match sent {
                Some(s) => self@.sent == Some(*s),
                None => self@.sent is None,
            },
    {
        self.sent.as_ref()
    }

    /// What the message is about.
    pub fn subject(&self) -> (subject: Option<&str>)
        ensures
            match subject {
                Some(s) => self@.subject == Some(s@),
                None => self@.subject is None,
            },
    {
        match &self.subject {
            Some(subject) => Some(subject.as_str()),
            None => None,
        }
    }

    /// The content of the message.
    pub fn content(&self) -> (content: &Content)
        ensures
            content@ == self@.content,
    {
        &self.content
    }

    /// What is known of the files attached to the message.
    pub fn attachments(&self) -> (attachments: &Vec<Attachment>)
        ensures
            attachment_views(attachments@) == self@.attachments,
    {
        &self.attachments
    }

    pub fn from(&self) -> (from: &Address)
        ensures
            from@ == self@.from,
    {
        &self.from
    }

    pub fn to(&self) -> (to: &Address)
        ensures
            to@ == self@.to,
    {
        &self.to
    }

    pub fn cc(&self) -> (cc: Option<&Address>)
        ensures
            match cc {
                Some(a) => self@.cc == Some(a@),
                None => self@.cc is None,
            },
    {
        self.cc.as_ref()
    }

    pub fn bcc(&self) -> (bcc: Option<&Address>)
        ensures
            match bcc {
                Some(a) => self@.bcc == Some(a@),
                None => self@.bcc is None,
            },
    {
        self.bcc.as_ref()
    }
}

/// What a [`SendableMessage`] holds.
pub struct SendableView {
    pub from: AddressView,
    pub to: AddressView,
    pub cc: Option<AddressView>,
    pub bcc: Option<AddressView>,
    pub subject: Seq<char>,
    pub content: ContentView,
}

/// A message that can be sent: it has a sender and a receiver.
#[derive(Debug)]
pub struct SendableMessage {
    from: Address,
    to: Address,
    cc: Option<Address>,
    bcc: Option<Address>,
    subject: String,
    content: Content,
}

impl View for SendableMessage {
    type V = SendableView;

    closed spec fn view(&self) -> SendableView {
        SendableView {
            from: self.from@,
            to: self.to@,
            cc: opt_address(self.cc),
            bcc: opt_address(self.bcc),
            subject: self.subject@,
            content: self.content@,
        }
    }
}

/// The message to send that a builder stands for, if it knows the sender and
/// the receiver. Without a subject, the subject is empty.
pub open spec fn sendable_of(builder: BuilderView) -> Option<SendableView> {
    if builder.from is Some && builder.to is Some {
        Some(
            SendableView {
                from: builder.from->0,
                to: builder.to->0,
                cc: builder.cc,
                bcc: builder.bcc,
                subject: match builder.subject {
                    Some(subject) => subject,
                    None => Seq::empty(),
                },
                content: builder.content,
            },
        )
    } else {
        None
    }
}

/// Whether a character can stand in an address on an envelope: it is a
/// visible ASCII character other than the angle brackets.
pub open spec fn sendable_char(c: char) -> bool {
    33 <= c as u32 <= 126 && c != '<' && c != '>'
}

/// Whether an address can go on an envelope.
pub open spec fn sendable(address: Seq<char>) -> bool {
    forall|i: int| 0 <= i < address.len() ==> sendable_char(#[trigger] address[i])
}

/// The addresses of the first `count` mailboxes that can go on an envelope.
pub open spec fn sendable_emails(list: Seq<EmailAddressView>, count: int) -> Seq<Seq<char>>
    decreases count,
{
    if count <= 0 || count > list.len() {
        Seq::empty()
    } else if sendable(list[count - 1].email) {
        sendable_emails(list, count - 1).push(list[count - 1].email)
    } else {
        sendable_emails(list, count - 1)
    }
}

/// Who is on the envelope of a message, if it can be sent: the address of
/// the first mailbox of the sender, if the sender has one, and the addresses
/// of the receiver that can go on an envelope, of which there must be one.
pub open spec fn envelope_of(message: SendableView) -> Option<(Option<Seq<char>>, Seq<Seq<char>>)> {
    let from = mailboxes(message.from);
    let to = sendable_emails(mailboxes(message.to), mailboxes(message.to).len() as int);
    if (from.len() > 0 && !sendable(from[0].email)) || to.len() == 0 {
        None
    } else {
        Some(
            (
                if from.len() > 0 {
                    Some(from[0].email)
                } else {
                    None
                },
                to,
            ),
        )
    }
}

/// Whether an address can go on an envelope.
pub fn is_sendable(address: &str) -> (can: bool)
    ensures
        can == sendable(address@),
{
    let chars = crate::text::to_chars(address);
    let mut i: usize = 0;
    while i < chars.len()
        invariant
            0 <= i <= chars.len(),
            chars@ == address@,
            forall|j: int| 0 <= j < i ==> sendable_char(#[trigger] chars@[j]),
        decreases chars.len() - i,
    {
        let c = chars[i];
        let code = c as u32;
        if code < 33 || code > 126 || c == '<' || c == '>' {
            return false;
        }
        i += 1;
    }
    true
}

/// Everything that a message to send holds, by value.
pub struct SendableParts {
    pub from: Address,
    pub to: Address,
    pub cc: Option<Address>,
    pub bcc: Option<Address>,
    pub subject: String,
    pub content: Content,
}

impl View for SendableParts {
    type V = SendableView;

    open spec fn view(&self) -> SendableView {
        SendableView {
            from: self.from@,
            to: self.to@,
            cc: opt_address(self.cc),
            bcc: opt_address(self.bcc),
            subject: self.subject@,
            content: self.content@,
        }
    }
}

impl SendableMessage {
    /// The message to send that a builder stands for. It fails where the
    /// builder does not know the sender or the receiver.
    pub fn from_builder(builder: MessageBuilder) -> (message: Result<SendableMessage, Error>)
        ensures
            match message {
                Ok(m) => sendable_of(builder@) == Some(m@),
                Err(e) => sendable_of(builder@) is None && e@.kind == ErrorKind::InvalidMessage,
            },
    {
        let parts = builder.into_parts();
        let from = match parts.from {
            Some(from) => from,
            None => {
                return Err(Error::new(ErrorKind::InvalidMessage, "Missing message sender".to_owned()));
            },
        };
        let to = match parts.to {
            Some(to) => to,
            None => {
                return Err(
                    Error::new(ErrorKind::InvalidMessage, "Missing message receiver".to_owned()),
                );
            },
        };
        let subject = match parts.subject {
            Some(subject) => subject,
            None => String::new(),
        };
        Ok(SendableMessage { from, to, bcc: parts.bcc, cc: parts.cc, content: parts.content, subject })
    }

    /// Who is on the envelope of the message: the first mailbox of the
    /// sender, if the sender has one, and every mailbox of the receiver whose
    /// address can go on an envelope. The message cannot be sent where the
    /// address of the sender cannot go on an envelope, or where no address of
    /// the receiver can.
    pub fn envelope(&self) -> (envelope: Result<(Option<String>, Vec<String>), Error>)
        ensures
            match envelope {
                Ok(e) => envelope_of(self@) == Some((opt_text(e.0), crate::text::texts(e.1@))),
                Err(e) => envelope_of(self@) is None && e@.kind == ErrorKind::InvalidMessage,
            },
    {
        let from = match self.from.first() {
            Some(mailbox) => {
                if !is_sendable(mailbox.email()) {
                    return Err(
                        Error::about(
                            ErrorKind::InvalidMessage,
                            "Failed to create message envelope: invalid email address: ",
                            mailbox.email(),
                        ),
                    );
                }
                Some(mailbox.email().to_owned())
            },
            None => None,
        };
        let receivers = self.to.as_list();
        let mut to: Vec<String> = Vec::new();
        let mut i: usize = 0;
        assert(crate::text::texts(to@) =~= sendable_emails(mailboxes(self@.to), 0));
        while i < receivers.len()
            invariant
                0 <= i <= receivers.len(),
                borrowed_views(receivers@) == mailboxes(self@.to),
                crate::text::texts(to@) == sendable_emails(mailboxes(self@.to), i as int),
            decreases receivers.len() - i,
        {
            let ghost before = crate::text::texts(to@);
            assert(borrowed_views(receivers@)[i as int] == receivers@[i as int]@);
            if is_sendable(receivers[i].email()) {
                to.push(receivers[i].email().to_owned());
                assert(crate::text::texts(to@) =~= before.push(receivers@[i as int]@.email));
            }
            i += 1;
        }
        if to.len() == 0 {
            return Err(
                Error::new(
                    ErrorKind::InvalidMessage,
                    "Failed to create message envelope: missing destination address".to_owned(),
                ),
            );
        }
        Ok((from, to))
    }

    /// Everything that the message holds, by value.
    pub fn into_parts(self) -> (parts: SendableParts)
        ensures
            parts@ == self@,
    {
        SendableParts {
            from: self.from,
            to: self.to,
            cc: self.cc,
            bcc: self.bcc,
            subject: self.subject,
            content: self.content,
        }
    }
}

} // verus!
