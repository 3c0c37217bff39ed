//! The structure of a message body as the server describes it, and the two
//! walks over it: one that lists the attachments, one that finds the part of
//! a given media type.

use crate::attachment::{attachment_views, Attachment, AttachmentView};
use crate::part_number::{rendered, PartNumber};
use crate::text::{free_of, lowercase, same_text, to_chars};
use vstd::prelude::*;
use vstd::string::StringExecFns;

verus! {

/// What a [`ContentDisposition`] holds.
pub struct DispositionView {
    pub ty: Seq<char>,
    pub params: Option<Seq<(Seq<char>, Seq<char>)>>,
}

/// The disposition of a part: its type, such as `attachment`, and its parameters.
#[derive(Debug)]
pub struct ContentDisposition {
    ty: String,
    params: Option<Vec<(String, String)>>,
}

/// The views of a list of parameters.
pub open spec fn param_views(params: Seq<(String, String)>) -> Seq<(Seq<char>, Seq<char>)> {
    Seq::new(params.len(), |i: int| (params[i].0@, params[i].1@))
}

impl View for ContentDisposition {
    type V = DispositionView;

    closed spec fn view(&self) -> DispositionView {
        DispositionView {
            ty: self.ty@,
            params: match self.params {
                Some(params) => Some(param_views(params@)),
                None => None,
            },
        }
    }
}

impl ContentDisposition {
    pub fn new(ty: String, params: Option<Vec<(String, String)>>) -> (disposition: Self)
        ensures
            disposition@ == (DispositionView {
                ty: ty@,
                params: match params {
                    Some(params) => Some(param_views(params@)),
                    None => None,
                },
            }),
    {
        Self { ty, params }
    }
}

/// What a [`BodyPart`] holds.
pub struct PartView {
    pub ty: Seq<char>,
    pub subtype: Seq<char>,
    pub disposition: Option<DispositionView>,
    pub octets: u32,
}

/// What the server says of a part that is not a multipart: its media type,
/// its disposition if it has one, and its size in bytes.
#[derive(Debug)]
pub struct BodyPart {
    ty: String,
    subtype: String,
    disposition: Option<ContentDisposition>,
    octets: u32,
}

impl View for BodyPart {
    type V = PartView;

    closed spec fn view(&self) -> PartView {
        PartView {
            ty: self.ty@,
            subtype: self.subtype@,
            disposition: match self.disposition {
                Some(disposition) => Some(disposition@),
                None => None,
            },
            octets: self.octets,
        }
    }
}

impl BodyPart {
    pub fn new(ty: String, subtype: String, disposition: Option<ContentDisposition>, octets: u32) -> (part:
        Self)
        ensures
            part@ == (PartView {
                ty: ty@,
                subtype: subtype@,
                disposition: match disposition {
                    Some(disposition) => Some(disposition@),
                    None => None,
                },
                octets,
            }),
    {
        Self { ty, subtype, disposition, octets }
    }
}

/// The mathematical shape of a [`BodyStructure`]. The three kinds of single
/// part are read alike, so the shape does not tell them apart.
pub enum Body {
    Single(PartView),
    Multipart(Seq<Body>),
}

/// The structure of a message body: a single part of one of three kinds, or a
/// multipart that holds bodies in turn.
#[derive(Debug)]
pub enum BodyStructure {
    Basic(BodyPart),
    Text(BodyPart),
    Message(BodyPart),
    Multipart(Vec<BodyStructure>),
}

impl View for BodyStructure {
    type V = Body;

    open spec fn view(&self) -> Body
        decreases self, 0nat,
    {
        match self {
            BodyStructure::Basic(part) => Body::Single(part@),
            BodyStructure::Text(part) => Body::Single(part@),
            BodyStructure::Message(part) => Body::Single(part@),
            BodyStructure::Multipart(bodies) => Body::Multipart(body_views(bodies@)),
        }
    }
}

/// The shapes of a sequence of body structures.
pub open spec fn body_views(bodies: Seq<BodyStructure>) -> Seq<Body>
    decreases bodies, 1nat,
{
    Seq::new(
        bodies.len(),
        |i: int|
            if 0 <= i < bodies.len() {
                bodies[i]@
            } else {
                Body::Multipart(Seq::empty())
            },
    )
}

/// The file name that a disposition gives: the value of its last parameter
/// whose key is `filename`, whatever the case of its letters.
pub open spec fn file_name_of(disposition: DispositionView) -> Option<Seq<char>> {
    match disposition.params {
        Some(params) => last_file_name(params, params.len() as int),
        None => None,
    }
}

/// The value of the last of the first `count` parameters whose key is `filename`.
pub open spec fn last_file_name(params: Seq<(Seq<char>, Seq<char>)>, count: int) -> Option<Seq<char>>
    decreases count,
{
    if count <= 0 || count > params.len() {
        None
    } else if lowercase(params[count - 1].0) == "filename"@ {
        Some(params[count - 1].1)
    } else {
        last_file_name(params, count - 1)
    }
}

/// The attachment that a single part at `path` is, if it is one: its
/// disposition must be of type `attachment`, whatever the case of its letters.
pub open spec fn attachment_of(path: Seq<usize>, part: PartView) -> Option<AttachmentView> {
    match part.disposition {
        Some(disposition) => if lowercase(disposition.ty) == "attachment"@ {
            Some(
                AttachmentView {
                    id: rendered(path),
                    file_name: file_name_of(disposition),
                    size: part.octets as nat,
                },
            )
        } else {
            None
        },
        None => None,
    }
}

/// The attachments below `body`, whose own place is `path`, in depth-first order.
/// The children of a multipart are numbered from one.
pub open spec fn attachments(body: Body, path: Seq<usize>) -> Seq<AttachmentView>
    decreases body, 0nat,
{
    match body {
        Body::Single(part) => match attachment_of(path, part) {
            Some(attachment) => seq![attachment],
            None => Seq::empty(),
        },
        Body::Multipart(bodies) => attachments_from(bodies, path, bodies.len() as int),
    }
}

/// The attachments of the first `count` of `bodies`, the children of the
/// multipart at `path`.
pub open spec fn attachments_from(bodies: Seq<Body>, path: Seq<usize>, count: int) -> Seq<AttachmentView>
    decreases bodies, count,
{
    if count <= 0 || count > bodies.len() {
        Seq::empty()
    } else {
        attachments_from(bodies, path, count - 1) + attachments(
            bodies[count - 1],
            path.push(count as usize),
        )
    }
}

/// What `mime`'s comparison says of two media types written as text: whether
/// both are well formed and name the same type.
pub uninterp spec fn mime_equal(target: Seq<char>, candidate: Seq<char>) -> bool;

/// Whether a part declares the media type `target`.
pub open spec fn declares(part: PartView, target: Seq<char>) -> bool {
    free_of(target, ';') && mime_equal(target, part.ty + "/"@ + part.subtype)
}

/// The place of the first single part below `body` that declares the media
/// type `target`, in depth-first order. `path` is the place of `body` itself.
pub open spec fn part_for(body: Body, target: Seq<char>, path: Seq<usize>) -> Option<Seq<usize>>
    decreases body, 0nat,
{
    match body {
        Body::Single(part) => if declares(part, target) {
            Some(path)
        } else {
            None
        },
        Body::Multipart(bodies) => part_from(bodies, target, path, 0),
    }
}

/// The first match among `bodies[from..]`, the children of the multipart at `path`.
pub open spec fn part_from(bodies: Seq<Body>, target: Seq<char>, path: Seq<usize>, from: int) -> Option<
    Seq<usize>,
>
    decreases bodies, bodies.len() - from,
{
    if from < 0 || from >= bodies.len() {
        None
    } else {
        match part_for(bodies[from], target, path.push((from + 1) as usize)) {
            Some(found) => Some(found),
            None => part_from(bodies, target, path, from + 1),
        }
    }
}

/// Parses both texts with `mime::Mime::from_str` and compares the results
/// with `Mime`'s `==`; a text that does not parse equals nothing. The target
/// must be free of parameters, so that the comparison is one of the two
/// normalised texts.
#[verifier::external_body]
fn same_mime(target: &str, candidate: &str) -> (same: bool)
    requires
        free_of(target@, ';'),
    ensures
        same == mime_equal(target@, candidate@),
{
    match (target.parse::<mime::Mime>(), candidate.parse::<mime::Mime>()) {
        (Ok(target), Ok(candidate)) => target == candidate,
        _ => false,
    }
}

/// Whether `c` occurs nowhere in `s`.
fn is_free_of(s: &str, c: char) -> (free: bool)
    ensures
        free == free_of(s@, c),
{
    let chars = to_chars(s);
    let mut i: usize = 0;
    while i < chars.len()
        invariant
            0 <= i <= chars.len(),
            chars@ == s@,
            forall|j: int| 0 <= j < i ==> chars@[j] != c,
        decreases chars.len() - i,
    {
        if chars[i] == c {
            return false;
        }
        i += 1;
    }
    true
}

/// Walks a body structure.
pub struct BodyStructureParser<'a> {
    structure: &'a BodyStructure,
}

impl<'a> View for BodyStructureParser<'a> {
    type V = Body;

    closed spec fn view(&self) -> Body {
        self.structure@
    }
}

impl<'a> BodyStructureParser<'a> {
    pub fn new(structure: &'a BodyStructure) -> (parser: Self)
        ensures
            parser@ == structure@,
    {
        Self { structure }
    }

    fn extract_file_name(disposition: &ContentDisposition) -> (file_name: Option<String>)
        ensures
            crate::attachment::opt_text(file_name) == file_name_of(disposition@),
    {
        match &disposition.params {
            Some(params) => {
                let mut i: usize = params.len();
                while i > 0
                    invariant
                        0 <= i <= params.len(),
                        disposition.params == Some(*params),
                        last_file_name(param_views(params@), params.len() as int)
                            == last_file_name(param_views(params@), i as int),
                    decreases i,
                {
                    let key = params[i - 1].0.to_lowercase();
                    assert(param_views(params@)[i - 1].0 == params@[i - 1].0@);
                    assert(param_views(params@)[i - 1].1 == params@[i - 1].1@);
                    if same_text(key.as_str(), "filename") {
                        return Some(params[i - 1].1.clone());
                    }
                    i -= 1;
                }
                None
            },
            None => None,
        }
    }

    fn extract_attachment(part_number: &PartNumber, part: &BodyPart) -> (attachment: Option<Attachment>)
        ensures
            match attachment {
                Some(a) => attachment_of(part_number@, part@) == Some(a@),
                None => attachment_of(part_number@, part@) is None,
            },
    {
        match &part.disposition {
            Some(disposition) => {
                if same_text(disposition.ty.to_lowercase().as_str(), "attachment") {
                    let file_name = Self::extract_file_name(disposition);
                    let size = part.octets as usize;
                    Some(Attachment::new(part_number.to_text(), file_name, size))
                } else {
                    None
                }
            },
            None => None,
        }
    }

    fn extract_attachments_rec(body_structure: &BodyStructure, part_number: PartNumber) -> (found: Vec<
        Attachment,
    >)
        ensures
            attachment_views(found@) == attachments(body_structure@, part_number@),
        decreases body_structure,
    {
        let mut found: Vec<Attachment> = Vec::new();
        match body_structure {
            BodyStructure::Multipart(bodies) => {
                let mut i: usize = 0;
                assert(attachment_views(found@) =~= Seq::<AttachmentView>::empty());
                while i < bodies.len()
                    invariant
                        0 <= i <= bodies.len(),
                        body_structure is Multipart,
                        body_structure->Multipart_0 == *bodies,
                        attachment_views(found@) == attachments_from(
                            body_views(bodies@),
                            part_number@,
                            i as int,
                        ),
                    decreases bodies.len() - i,
                {
                    let ghost before = attachment_views(found@);
                    assert(body_views(bodies@)[i as int] == bodies@[i as int]@);
                    assert(body_structure->Multipart_0 == *bodies);
                    let mut below = Self::extract_attachments_rec(
                        &bodies[i],
                        part_number.clone_and_add(i + 1),
                    );
                    let ghost more = attachment_views(below@);
                    found.append(&mut below);
                    assert(attachment_views(found@) =~= before + more);
                    i += 1;
                }
            },
            BodyStructure::Message(part) => {
                if let Some(attachment) = Self::extract_attachment(&part_number, part) {
                    found.push(attachment);
                }
                assert(attachment_views(found@) =~= attachments(body_structure@, part_number@));
            },
            BodyStructure::Basic(part) => {
                if let Some(attachment) = Self::extract_attachment(&part_number, part) {
                    found.push(attachment);
                }
                assert(attachment_views(found@) =~= attachments(body_structure@, part_number@));
            },
            BodyStructure::Text(part) => {
                if let Some(attachment) = Self::extract_attachment(&part_number, part) {
                    found.push(attachment);
                }
                assert(attachment_views(found@) =~= attachments(body_structure@, part_number@));
            },
        }
        found
    }

    /// What is known of the files attached to the message: every single part
    /// whose disposition is `attachment`, in depth-first order.
    pub fn extract_attachments(&self) -> (found: Vec<Attachment>)
        ensures
            attachment_views(found@) == attachments(self@, Seq::empty()),
    {
        Self::extract_attachments_rec(self.structure, PartNumber::new())
    }

    fn check_mime_type(mime: &str, part: &BodyPart) -> (same: bool)
        requires
            free_of(mime@, ';'),
        ensures
            same == declares(part@, mime@),
    {
        let mut candidate = part.ty.clone();
        candidate.append("/");
        candidate.append(part.subtype.as_str());
        same_mime(mime, candidate.as_str())
    }

    fn find_part_number_rec(body_structure: &BodyStructure, mime: &str, part_number: PartNumber) -> (found:
        Option<PartNumber>)
        requires
            free_of(mime@, ';'),
        ensures
            match found {
                Some(number) => part_for(body_structure@, mime@, part_number@) == Some(number@),
                None => part_for(body_structure@, mime@, part_number@) is None,
            },
        decreases body_structure,
    {
        match body_structure {
            BodyStructure::Multipart(bodies) => {
                let mut i: usize = 0;
                while i < bodies.len()
                    invariant
                        0 <= i <= bodies.len(),
                        *body_structure == BodyStructure::Multipart(*bodies),
                        free_of(mime@, ';'),
                        part_from(body_views(bodies@), mime@, part_number@, 0) == part_from(
                            body_views(bodies@),
                            mime@,
                            part_number@,
                            i as int,
                        ),
                    decreases bodies.len() - i,
                {
                    assert(body_views(bodies@)[i as int] == bodies@[i as int]@);
                    if let Some(found) = Self::find_part_number_rec(
                        &bodies[i],
                        mime,
                        part_number.clone_and_add(i + 1),
                    ) {
                        return Some(found);
                    }
                    i += 1;
                }
                None
            },
            BodyStructure::Message(part) => {
                if Self::check_mime_type(mime, part) {
                    Some(part_number)
                } else {
                    None
                }
            },
            BodyStructure::Basic(part) => {
                if Self::check_mime_type(mime, part) {
                    Some(part_number)
                } else {
                    None
                }
            },
            BodyStructure::Text(part) => {
                if Self::check_mime_type(mime, part) {
                    Some(part_number)
                } else {
                    None
                }
            },
        }
    }

    /// The part number of the first single part that declares the media type
    /// `mime_type`, such as `text/plain`. A multipart is never a match itself.
    /// A media type with parameters names no part.
    pub fn find_part_number_for(&self, mime_type: &str) -> (found: Option<PartNumber>)
        ensures
            match found {
                Some(number) => part_for(self@, mime_type@, Seq::empty()) == Some(number@),
                None => part_for(self@, mime_type@, Seq::empty()) is None,
            },
    {
        if is_free_of(mime_type, ';') {
            Self::find_part_number_rec(self.structure, mime_type, PartNumber::new())
        } else {
            proof {
                lemma_no_part_with_parameters(self@, mime_type@, Seq::empty());
            }
            None
        }
    }
}

/// A media type with parameters names no part.
pub proof fn lemma_no_part_with_parameters(body: Body, target: Seq<char>, path: Seq<usize>)
    requires
        !free_of(target, ';'),
    ensures
        part_for(body, target, path) is None,
    decreases body, 0nat,
{
    match body {
        Body::Single(_) => {},
        Body::Multipart(bodies) => {
            lemma_no_part_from(bodies, target, path, 0);
        },
    }
}

proof fn lemma_no_part_from(bodies: Seq<Body>, target: Seq<char>, path: Seq<usize>, from: int)
    requires
        !free_of(target, ';'),
    ensures
        part_from(bodies, target, path, from) is None,
    decreases bodies, bodies.len() - from,
{
    if 0 <= from < bodies.len() {
        lemma_no_part_with_parameters(bodies[from], target, path.push((from + 1) as usize));
        lemma_no_part_from(bodies, target, path, from + 1);
    }
}

} // verus!
