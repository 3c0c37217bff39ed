//! What is known of a file attached to a message.

use vstd::prelude::*;

verus! {

/// What an [`Attachment`] holds.
pub struct AttachmentView {
    pub id: Seq<char>,
    pub file_name: Option<Seq<char>>,
    pub size: nat,
}

/// The view of an optional string.
pub open spec fn opt_text(s: Option<String>) -> Option<Seq<char>> {
    match s {
        Some(s) => Some(s@),
        None => None,
    }
}

/// The address of an attached file within its message, its file name if it
/// has one, and its size in bytes.
#[derive(Debug)]
pub struct Attachment {
    id: String,
    file_name: Option<String>,
    size: usize,
}

impl View for Attachment {
    type V = AttachmentView;

    closed spec fn view(&self) -> AttachmentView {
        AttachmentView { id: self.id@, file_name: opt_text(self.file_name), size: self.size as nat }
    }
}

impl Attachment {
    pub fn new(id: String, file_name: Option<String>, size: usize) -> (attachment: Self)
        ensures
            attachment@ == (AttachmentView {
                id: id@,
                file_name: opt_text(file_name),
                size: size as nat,
            }),
    {
        Self { id, file_name, size }
    }

    /// The id by which the attachment is fetched. Callers treat it as opaque.
    pub fn id(&self) -> (id: &str)
        ensures
            id@ == self@.id,
    {
        self.id.as_str()
    }

    pub fn file_name(&self) -> (file_name: Option<&String>)
        ensures
            match file_name {
                Some(name) => self@.file_name == Some(name@),
                None => self@.file_name is None,
            },
    {
        self.file_name.as_ref()
    }

    /// The size in bytes.
    pub fn size(&self) -> (size: usize)
        ensures
            size == self@.size,
    {
        self.size
    }
}

/// The views of a sequence of attachments.
pub open spec fn attachment_views(attachments: Seq<Attachment>) -> Seq<AttachmentView> {
    Seq::new(attachments.len(), |i: int| attachments[i]@)
}

} // verus!
