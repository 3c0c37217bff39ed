//! Collects what is known of a message, piece by piece, before it becomes a
//! preview, a whole message or a message to send.

use crate::address::{opt_address, Address, AddressView};
use crate::attachment::{attachment_views, opt_text, Attachment, AttachmentView};
use crate::content::{Content, ContentView};
use crate::flag::{flag_views, Flag, FlagView};
use crate::headers::Headers;
use crate::pairs::{put, Pairs};
use vstd::prelude::*;

verus! {

/// What a [`MessageBuilder`] holds.
pub struct BuilderView {
    pub from: Option<AddressView>,
    pub to: Option<AddressView>,
    pub cc: Option<AddressView>,
    pub bcc: Option<AddressView>,
    pub flags: Seq<FlagView>,
    pub id: Option<Seq<char>>,
    pub sent: Option<i64>,
    pub subject: Option<Seq<char>>,
    pub headers: Option<Pairs<Seq<char>>>,
    pub attachments: Seq<AttachmentView>,
    pub content: ContentView,
}

/// The view of optional headers.
pub open spec fn opt_headers(headers: Option<Headers>) -> Option<Pairs<Seq<char>>> {
    match headers {
        Some(headers) => Some(headers@),
        None => None,
    }
}

/// A builder that knows nothing yet.
pub open spec fn empty_builder() -> BuilderView {
    BuilderView {
        from: None,
        to: None,
        cc: None,
        bcc: None,
        flags: Seq::empty(),
        id: None,
        sent: None,
        subject: None,
        headers: None,
        attachments: Seq::empty(),
        content: ContentView { text: None, html: None },
    }
}

/// Collects what is known of a message.
#[derive(Debug)]
pub struct MessageBuilder {
    from: Option<Address>,
    to: Option<Address>,
    cc: Option<Address>,
    bcc: Option<Address>,
    flags: Vec<Flag>,
    id: Option<String>,
    sent: Option<i64>,
    subject: Option<String>,
    headers: Option<Headers>,
    attachments: Vec<Attachment>,
    content: Content,
}

impl View for MessageBuilder {
    type V = BuilderView;

    closed spec fn view(&self) -> BuilderView {
        BuilderView {
            from: opt_address(self.from),
            to: opt_address(self.to),
            cc: opt_address(self.cc),
            bcc: opt_address(self.bcc),
            flags: flag_views(self.flags@),
            id: opt_text(self.id),
            sent: self.sent,
            subject: opt_text(self.subject),
            headers: opt_headers(self.headers),
            attachments: attachment_views(self.attachments@),
            content: self.content@,
        }
    }
}

/// Everything that a builder holds, by value.
pub struct BuilderParts {
    pub from: Option<Address>,
    pub to: Option<Address>,
    pub cc: Option<Address>,
    pub bcc: Option<Address>,
    pub flags: Vec<Flag>,
    pub id: Option<String>,
    pub sent: Option<i64>,
    pub subject: Option<String>,
    pub headers: Option<Headers>,
    pub attachments: Vec<Attachment>,
    pub content: Content,
}

impl View for BuilderParts {
    type V = BuilderView;

    open spec fn view(&self) -> BuilderView {
        BuilderView {
            from: opt_address(self.from),
            to: opt_address(self.to),
            cc: opt_address(self.cc),
            bcc: opt_address(self.bcc),
            flags: flag_views(self.flags@),
            id: opt_text(self.id),
            sent: self.sent,
            subject: opt_text(self.subject),
            headers: opt_headers(self.headers),
            attachments: attachment_views(self.attachments@),
            content: self.content@,
        }
    }
}

impl MessageBuilder {
    /// A builder that knows nothing yet.
    pub fn new() -> (builder: Self)
        ensures
            builder@ == empty_builder(),
    {
        let builder = Self {
            flags: Vec::new(),
            from: None,
            bcc: None,
            cc: None,
            to: None,
            id: None,
            sent: None,
            subject: None,
            content: Content::default(),
            attachments: Vec::new(),
            headers: None,
        };
        assert(builder@.flags =~= Seq::<FlagView>::empty());
        assert(builder@.attachments =~= Seq::<AttachmentView>::empty());
        builder
    }

    /// Everything that the builder holds, by value.
    pub fn into_parts(self) -> (parts: BuilderParts)
        ensures
            parts@ == self@,
    {
        BuilderParts {
            from: self.from,
            to: self.to,
            cc: self.cc,
            bcc: self.bcc,
            flags: self.flags,
            id: self.id,
            sent: self.sent,
            subject: self.subject,
            headers: self.headers,
            attachments: self.attachments,
            content: self.content,
        }
    }

    /// Adds flags, after those that are there.
    pub fn flags(self, flags: Vec<Flag>) -> (builder: Self)
        ensures
            builder@ == (BuilderView { flags: self@.flags + flag_views(flags@), ..self@ }),
    {
        let mut builder = self;
        let mut flags = flags;
        let ghost before = flag_views(builder.flags@);
        let ghost more = flag_views(flags@);
        builder.flags.append(&mut flags);
        assert(flag_views(builder.flags@) =~= before + more);
        builder
    }

    /// Adds one flag, after those that are there.
    pub fn flag(self, flag: Flag) -> (builder: Self)
        ensures
            builder@ == (BuilderView { flags: self@.flags.push(flag@), ..self@ }),
    {
        let mut builder = self;
        let ghost before = flag_views(builder.flags@);
        builder.flags.push(flag);
        assert(flag_views(builder.flags@) =~= before.push(flag@));
        builder
    }

    pub fn senders(self, sender: Address) -> (builder: Self)
        ensures
            builder@ == (BuilderView { from: Some(sender@), ..self@ }),
    {
        let mut builder = self;
        builder.from = Some(sender);
        builder
    }

    pub fn recipients(self, recipient: Address) -> (builder: Self)
        ensures
            builder@ == (BuilderView { to: Some(recipient@), ..self@ }),
    {
        let mut builder = self;
        builder.to = Some(recipient);
        builder
    }

    pub fn cc(self, cc: Address) -> (builder: Self)
        ensures
            builder@ == (BuilderView { cc: Some(cc@), ..self@ }),
    {
        let mut builder = self;
        builder.cc = Some(cc);
        builder
    }

    pub fn bcc(self, bcc: Address) -> (builder: Self)
        ensures
            builder@ == (BuilderView { bcc: Some(bcc@), ..self@ }),
    {
        let mut builder = self;
        builder.bcc = Some(bcc);
        builder
    }

    pub fn id(self, id: &str) -> (builder: Self)
        ensures
            builder@ == (BuilderView { id: Some(id@), ..self@ }),
    {
        let mut builder = self;
        builder.id = Some(id.to_owned());
        builder
    }

    /// When the message was sent, in seconds since the epoch.
    pub fn sent(self, sent: i64) -> (builder: Self)
        ensures
            builder@ == (BuilderView { sent: Some(sent), ..self@ }),
    {
        let mut builder = self;
        builder.sent = Some(sent);
        builder
    }

    /// Replaces the attachments.
    pub fn attachments(self, attachments: Vec<Attachment>) -> (builder: Self)
        ensures
            builder@ == (BuilderView { attachments: attachment_views(attachments@), ..self@ }),
    {
        let mut builder = self;
        builder.attachments = attachments;
        builder
    }

    pub fn subject(self, subject: &str) -> (builder: Self)
        ensures
            builder@ == (BuilderView { subject: Some(subject@), ..self@ }),
    {
        let mut builder = self;
        builder.subject = Some(subject.to_owned());
        builder
    }

    /// Replaces the header fields.
    pub fn headers(self, headers: Headers) -> (builder: Self)
        ensures
            builder@ == (BuilderView { headers: Some(headers@), ..self@ }),
    {
        let mut builder = self;
        builder.headers = Some(headers);
        builder
    }

    /// Gives one header field a value.
    pub fn header(self, header: &str, value: &str) -> (builder: Self)
        ensures
            builder@ == (BuilderView {
                headers: Some(
                    put(
                        match self@.headers {
                            Some(headers) => headers,
                            None => Pairs::<Seq<char>>::empty(),
                        },
                        header@,
                        value@,
                    ),
                ),
                ..self@
            }),
    {
        let mut builder = self;
        let mut headers = match builder.headers.take() {
            Some(headers) => headers,
            None => Headers::new(),
        };
        headers.insert(header.to_owned(), value.to_owned());
        builder.headers = Some(headers);
        builder
    }

    pub fn html(self, html: &str) -> (builder: Self)
        ensures
            builder@ == (BuilderView {
                content: ContentView { html: Some(html@), ..self@.content },
                ..self@
            }),
    {
        let mut builder = self;
        builder.content.set_html(html);
        builder
    }

    pub fn text(self, text: &str) -> (builder: Self)
        ensures
            builder@ == (BuilderView {
                content: ContentView { text: Some(text@), ..self@.content },
                ..self@
            }),
    {
        let mut builder = self;
        builder.content.set_text(text);
        builder
    }
}

} // verus!
