//! The decisions of an IMAP session.
//!
//! The session itself talks to a server; this module decides, from what the
//! session knows, what is to be sent next, and takes in what came back. A
//! session has at most one mailbox selected at a time.

use crate::body_structure::{part_for, BodyStructure, BodyStructureParser};
use crate::error::{Error, ErrorKind};
use crate::mailbox::{Mailbox, MailboxFinder, MailboxStats, MailboxView, StatsView};
use crate::part_number::{parsed, PartNumber};
use crate::query::{headers_item, item_list, section_item, QueryBuilder};
use crate::text::{decimal, decimal_text, join, join_text, lowercase, same_text, split, split_text, texts, trimmed};
use crate::tree::{pred_of, Node};
use vstd::prelude::*;
use vstd::string::StringExecFns;

verus! {

/// The seconds after which a session that sent nothing is pinged: 29 minutes,
/// just under the half hour after which a server may close it.
pub const KEEP_ALIVE_INTERVAL: u64 = 1740;

/// The seconds between two looks at whether a ping is due.
pub const CHECK_TIME: u64 = 5;

/// What a [`SessionState`] holds.
pub struct SessionView {
    pub selected: Option<(Seq<char>, StatsView)>,
    pub last_keep_alive: Option<u64>,
}

/// What a session knows: the mailbox that is selected, with its counts, and
/// when the last ping was sent, in seconds of a clock that never goes back.
#[derive(Debug)]
pub struct SessionState {
    selected_box: Option<(String, MailboxStats)>,
    last_keep_alive: Option<u64>,
}

impl View for SessionState {
    type V = SessionView;

    closed spec fn view(&self) -> SessionView {
        SessionView {
            selected: match self.selected_box {
                Some((id, stats)) => Some((id@, stats@)),
                None => None,
            },
            last_keep_alive: self.last_keep_alive,
        }
    }
}

/// A command that goes over the wire when a mailbox is selected.
pub enum WireCall {
    Close,
    Select(Seq<char>),
}

/// What a [`SelectStep`] says.
pub enum SelectStepView {
    /// The mailbox is selected already; these are its counts.
    Done(StatsView),
    /// Another mailbox is selected and has to be closed first.
    Close,
    /// The mailbox cannot be selected: the selection fails.
    NotSelectable,
    /// The mailbox with this id is to be selected.
    Select(Seq<char>),
}

/// What is to be done next to have a mailbox selected.
#[derive(Debug)]
pub enum SelectStep {
    /// The mailbox is selected already; these are its counts.
    Done(MailboxStats),
    /// Another mailbox is selected and has to be closed first.
    Close,
    /// The mailbox cannot be selected: the selection fails.
    NotSelectable,
    /// The mailbox with this id is to be selected.
    Select(String),
}

impl View for SelectStep {
    type V = SelectStepView;

    open spec fn view(&self) -> SelectStepView {
        match self {
            SelectStep::Done(stats) => SelectStepView::Done(stats@),
            SelectStep::Close => SelectStepView::Close,
            SelectStep::NotSelectable => SelectStepView::NotSelectable,
            SelectStep::Select(id) => SelectStepView::Select(id@),
        }
    }
}

/// Two mailbox ids name the same mailbox where they are equal once trimmed.
pub open spec fn same_box(a: Seq<char>, b: Seq<char>) -> bool {
    trimmed(a) == trimmed(b)
}

/// The next step towards having `mailbox` selected.
pub open spec fn select_step_of(state: SessionView, mailbox: MailboxView) -> SelectStepView {
    match state.selected {
        Some((id, stats)) => if same_box(id, mailbox.id) {
            SelectStepView::Done(stats)
        } else {
            SelectStepView::Close
        },
        None => if mailbox.selectable {
            SelectStepView::Select(mailbox.id)
        } else {
            SelectStepView::NotSelectable
        },
    }
}

/// The state once the selected mailbox has been closed.
pub open spec fn closed_state(state: SessionView) -> SessionView {
    SessionView { selected: None, ..state }
}

/// The state once the server has selected the mailbox `id` and given its counts.
pub open spec fn selected_state(state: SessionView, id: Seq<char>, stats: StatsView) -> SessionView {
    SessionView { selected: Some((id, stats)), ..state }
}

/// The commands that go over the wire to have `mailbox` selected: the steps
/// are followed until the mailbox is selected or the selection fails.
pub open spec fn select_calls(state: SessionView, mailbox: MailboxView) -> Seq<WireCall> {
    match select_step_of(state, mailbox) {
        SelectStepView::Done(_) => Seq::empty(),
        SelectStepView::NotSelectable => Seq::empty(),
        SelectStepView::Select(id) => seq![WireCall::Select(id)],
        SelectStepView::Close => match select_step_of(closed_state(state), mailbox) {
            SelectStepView::Select(id) => seq![WireCall::Close, WireCall::Select(id)],
            _ => seq![WireCall::Close],
        },
    }
}

/// Selecting the mailbox that is selected already sends nothing.
pub proof fn lemma_select_again_is_silent(state: SessionView, mailbox: MailboxView, stats: StatsView)
    ensures
        select_calls(selected_state(state, mailbox.id, stats), mailbox) == Seq::<WireCall>::empty(),
        select_step_of(selected_state(state, mailbox.id, stats), mailbox) == SelectStepView::Done(
            stats,
        ),
{
}

/// Selecting another mailbox while one is selected sends exactly one close
/// and one select for the other mailbox.
pub proof fn lemma_select_other_closes_once(
    state: SessionView,
    first: MailboxView,
    stats: StatsView,
    second: MailboxView,
)
    requires
        !same_box(first.id, second.id),
        second.selectable,
    ensures
        select_calls(selected_state(state, first.id, stats), second) == seq![
            WireCall::Close,
            WireCall::Select(second.id),
        ],
{
}

/// The window of sequence numbers that holds the messages from the `start`-th
/// to the `end`-th most recent, the most recent being the zeroth, in a mailbox
/// of `total` messages. A window that reaches beyond the mailbox is clamped.
pub open spec fn window_of(total: nat, start: nat, end: nat) -> (nat, nat) {
    (
        if total < end {
            1
        } else {
            (total - end + 1) as nat
        },
        if total <= start {
            1
        } else {
            (total - start) as nat
        },
    )
}

/// The sequence set `first:last`.
pub open spec fn sequence_set(first: nat, last: nat) -> Seq<char> {
    decimal(first) + ":"@ + decimal(last)
}

/// The items that a fetch of previews asks for.
pub open spec fn preview_items() -> Seq<Seq<char>> {
    seq![
        "FLAGS"@,
        "RFC822.SIZE"@,
        "UID"@,
        headers_item(seq!["From"@, "Date"@, "Subject"@]),
        "BODYSTRUCTURE"@,
    ]
}

/// The items that the first fetch of a whole message asks for.
pub open spec fn message_items() -> Seq<Seq<char>> {
    seq!["FLAGS"@, "UID"@, "BODYSTRUCTURE"@, headers_item(Seq::empty())]
}

/// What a [`FetchRequest`] holds.
pub struct FetchRequestView {
    pub sequence: Seq<char>,
    pub query: Seq<char>,
}

/// A fetch to send: the sequence set and the item list.
#[derive(Debug)]
pub struct FetchRequest {
    pub sequence: String,
    pub query: String,
}

impl View for FetchRequest {
    type V = FetchRequestView;

    open spec fn view(&self) -> FetchRequestView {
        FetchRequestView { sequence: self.sequence@, query: self.query@ }
    }
}

/// The fetch that gets the previews of a window, if there is anything to
/// fetch: the window must not be empty and the mailbox must hold a message.
pub open spec fn preview_request(total: nat, start: nat, end: nat) -> Option<FetchRequestView> {
    if start >= end || total < 1 {
        None
    } else {
        Some(
            FetchRequestView {
                sequence: sequence_set(window_of(total, start, end).0, window_of(total, start, end).1),
                query: item_list(preview_items()),
            },
        )
    }
}

/// The id under which a mailbox is renamed: where the old id has two or more
/// segments, all but the last of them stay in front of the new name.
pub open spec fn renamed(delimiter: Option<Seq<char>>, old_id: Seq<char>, new_name: Seq<char>) -> Seq<char> {
    match delimiter {
        Some(d) => {
            let segments = split(old_id, d);
            if segments.len() >= 2 {
                join(segments.drop_last(), d) + d + new_name
            } else {
                new_name
            }
        },
        None => new_name,
    }
}

/// The parts of a message body that are fetched to show the message.
#[derive(Debug)]
pub struct BodyPlan {
    pub text: Option<PartNumber>,
    pub html: Option<PartNumber>,
}

/// The view of an optional part number.
pub open spec fn opt_path(number: Option<PartNumber>) -> Option<Seq<usize>> {
    match number {
        Some(number) => Some(number@),
        None => None,
    }
}

/// The items of the second fetch of a whole message: the plain text part
/// first, then the html part, each if the message has it.
pub open spec fn body_items(text: Option<Seq<usize>>, html: Option<Seq<usize>>) -> Seq<Seq<char>> {
    (match text {
        Some(path) => seq![section_item(path)],
        None => Seq::empty(),
    }) + (match html {
        Some(path) => seq![section_item(path)],
        None => Seq::empty(),
    })
}

impl BodyPlan {
    /// Finds the plain text part and the html part of a message.
    pub fn of(structure: &BodyStructure) -> (plan: Self)
        ensures
            opt_path(plan.text) == part_for(structure@, "text/plain"@, Seq::empty()),
            opt_path(plan.html) == part_for(structure@, "text/html"@, Seq::empty()),
    {
        let parser = BodyStructureParser::new(structure);
        BodyPlan {
            text: parser.find_part_number_for("text/plain"),
            html: parser.find_part_number_for("text/html"),
        }
    }

    /// The item list of the second fetch, or nothing where the message has
    /// neither part: it is then shown without content.
    pub fn query(&self) -> (query: Option<String>)
        ensures
            match query {
                Some(q) => (self.text is Some || self.html is Some) && q@ == item_list(
                    body_items(opt_path(self.text), opt_path(self.html)),
                ),
                None => self.text is None && self.html is None,
            },
    {
        if self.text.is_some() || self.html.is_some() {
            let mut query = QueryBuilder::new();
            if let Some(text) = &self.text {
                query = query.section(text);
            }
            if let Some(html) = &self.html {
                query = query.section(html);
            }
            assert(query@ =~= body_items(opt_path(self.text), opt_path(self.html)));
            Some(query.build())
        } else {
            None
        }
    }
}

impl SessionState {
    /// The state of a session that has just logged in.
    pub fn new() -> (state: Self)
        ensures
            state@ == (SessionView { selected: None, last_keep_alive: None }),
    {
        Self { selected_box: None, last_keep_alive: None }
    }

    /// The id of the selected mailbox, if there is one.
    pub fn selected_id(&self) -> (id: Option<&str>)
        ensures
            match id {
                Some(id) => self@.selected matches Some(pair) && pair.0 == id@,
                None => self@.selected is None,
            },
    {
        match &self.selected_box {
            Some((id, _)) => Some(id.as_str()),
            None => None,
        }
    }

    /// Whether a mailbox is selected, so that it has to be closed before the
    /// mailboxes are listed or a mailbox is renamed.
    pub fn close_needed(&self) -> (needed: bool)
        ensures
            needed == self@.selected is Some,
    {
        self.selected_box.is_some()
    }

    /// Takes in that the server has closed the selected mailbox.
    pub fn closed(&mut self)
        ensures
            final(self)@ == closed_state(old(self)@),
    {
        self.selected_box = None;
    }

    /// Fails where the mailbox cannot be selected.
    pub fn check_selectable(mailbox: &Mailbox) -> (checked: Result<(), Error>)
        ensures
            checked is Ok == mailbox@.selectable,
            checked matches Err(e) ==> e@.kind == ErrorKind::MailServer && e@.message
                == "The mailbox is not selectable: "@ + mailbox@.id,
    {
        if !*mailbox.selectable() {
            return Err(
                Error::about(ErrorKind::MailServer, "The mailbox is not selectable: ", mailbox.id()),
            );
        }
        Ok(())
    }

    /// The next step towards having `mailbox` selected.
    pub fn select_step(&self, mailbox: &Mailbox) -> (step: SelectStep)
        ensures
            step@ == select_step_of(self@, mailbox@),
    {
        match &self.selected_box {
            Some((id, stats)) => {
                if same_text(id.as_str().trim(), mailbox.id().trim()) {
                    SelectStep::Done(*stats)
                } else {
                    SelectStep::Close
                }
            },
            None => {
                if *mailbox.selectable() {
                    SelectStep::Select(mailbox.id().to_owned())
                } else {
                    SelectStep::NotSelectable
                }
            },
        }
    }

    /// Takes in that the server has selected the mailbox `id` and given its counts.
    pub fn selected(&mut self, id: String, stats: MailboxStats)
        ensures
            final(self)@ == selected_state(old(self)@, id@, stats@),
    {
        self.selected_box = Some((id, stats));
    }

    /// Whether a ping is due at `now`: none was ever sent, or the last one is
    /// more than [`KEEP_ALIVE_INTERVAL`] seconds old.
    pub fn should_keep_alive(&self, now: u64) -> (due: bool)
        ensures
            due == match self@.last_keep_alive {
                Some(last) => now - last > KEEP_ALIVE_INTERVAL,
                None => true,
            },
    {
        match self.last_keep_alive {
            Some(last) => now >= last && now - last > KEEP_ALIVE_INTERVAL,
            None => true,
        }
    }

    /// Takes in that a ping is sent at `now`.
    pub fn keep_alive_sent(&mut self, now: u64)
        ensures
            final(self)@ == (SessionView { last_keep_alive: Some(now), ..old(self)@ }),
    {
        self.last_keep_alive = Some(now);
    }
}

/// Whether the window from the `start`-th to the `end`-th most recent message
/// holds no message at all, whatever the mailbox holds.
pub fn is_empty_window(start: usize, end: usize) -> (empty: bool)
    ensures
        empty == (start >= end),
        empty ==> forall|total: nat| preview_request(total, start as nat, end as nat) is None,
{
    start >= end
}

/// The window of sequence numbers for the messages from the `start`-th to the
/// `end`-th most recent, or nothing where the mailbox or the window is empty.
pub fn message_window(total: usize, start: usize, end: usize) -> (window: Option<(usize, usize)>)
    ensures
        match window {
            Some((first, last)) => total >= 1 && start < end && (first as nat, last as nat)
                == window_of(total as nat, start as nat, end as nat),
            None => total < 1 || start >= end,
        },
{
    if total < 1 || start >= end {
        return None;
    }
    let first = if total < end {
        1
    } else {
        total.saturating_sub(end).saturating_add(1)
    };
    let last = if total <= start {
        1
    } else {
        total.saturating_sub(start)
    };
    Some((first, last))
}

/// In a window that is not empty, the first sequence number is not after the
/// last, and both lie in the mailbox.
pub proof fn lemma_window_in_mailbox(total: nat, start: nat, end: nat)
    requires
        total >= 1,
        start < end,
    ensures
        1 <= window_of(total, start, end).0 <= window_of(total, start, end).1 <= total,
{
}

/// A window that covers the whole mailbox is the whole mailbox.
pub proof fn lemma_window_clamped(total: nat, end: nat)
    requires
        total >= 1,
        end >= total,
    ensures
        window_of(total, 0, end) == (1nat, total),
{
}

/// The fetch that gets the previews of the messages from the `start`-th to
/// the `end`-th most recent, or nothing where there is nothing to fetch.
pub fn get_messages_request(total: usize, start: usize, end: usize) -> (request: Option<FetchRequest>)
    ensures
        match request {
            Some(r) => preview_request(total as nat, start as nat, end as nat) == Some(r@),
            None => preview_request(total as nat, start as nat, end as nat) is None,
        },
{
    match message_window(total, start, end) {
        Some((first, last)) => {
            let mut sequence = decimal_text(first as u64);
            sequence.append(":");
            sequence.append(decimal_text(last as u64).as_str());
            let mut names: Vec<&str> = Vec::new();
            names.push("From");
            names.push("Date");
            names.push("Subject");
            assert(crate::query::slices(names@) =~= seq!["From"@, "Date"@, "Subject"@]);
            let builder = QueryBuilder::default().headers(names).bodystructure();
            assert(builder@ =~= preview_items());
            Some(FetchRequest { sequence, query: builder.build() })
        },
        None => None,
    }
}

/// The item list of the first fetch of a whole message.
pub fn message_query() -> (query: String)
    ensures
        query@ == item_list(message_items()),
{
    let builder = QueryBuilder::new().flags().uid().bodystructure().headers(Vec::new());
    assert(crate::query::slices(Seq::<&str>::empty()) =~= Seq::<Seq<char>>::empty());
    assert(builder@ =~= message_items());
    builder.build()
}

/// The id under which the mailbox `old_id` is renamed to `new_name`.
pub fn renamed_id(delimiter: Option<&str>, old_id: &str, new_name: &str) -> (id: String)
    ensures
        id@ == renamed(
            match delimiter {
                Some(d) => Some(d@),
                None => None,
            },
            old_id@,
            new_name@,
        ),
{
    match delimiter {
        Some(d) => {
            let segments = split_text(old_id, d);
            if segments.len() >= 2 {
                assert(texts(segments@).take(segments@.len() - 1) =~= texts(segments@).drop_last());
                let mut id = join_text(&segments, segments.len() - 1, d);
                id.append(d);
                id.append(new_name);
                id
            } else {
                new_name.to_owned()
            }
        },
        None => new_name.to_owned(),
    }
}

/// The part number that an attachment id names, and the item list that
/// fetches that part.
pub fn attachment_request(attachment_id: &str) -> (request: Result<(PartNumber, String), Error>)
    ensures
        match request {
            Ok((number, query)) => parsed(attachment_id@) == Some(number@) && query@ == item_list(
                seq![section_item(number@)],
            ),
            Err(e) => parsed(attachment_id@) is None && e@.kind == ErrorKind::ParseInt,
        },
{
    match PartNumber::parse(attachment_id) {
        Ok(number) => {
            let builder = QueryBuilder::new().section(&number);
            assert(builder@ =~= seq![section_item(number@)]);
            let query = builder.build();
            Ok((number, query))
        },
        Err(e) => Err(e),
    }
}

/// The bytes of an attachment, out of the section that was fetched for it. A
/// section that is missing or empty is no attachment.
pub fn attachment_bytes(section: Option<Vec<u8>>, attachment_id: &str) -> (bytes: Result<Vec<u8>, Error>)
    ensures
        match bytes {
            Ok(b) => section == Some(b) && b@.len() > 0,
            Err(e) => (section matches Some(b) ==> b@.len() == 0) && e@.kind
                == ErrorKind::AttachmentNotFound,
        },
{
    match section {
        Some(bytes) => {
            if bytes.len() > 0 {
                Ok(bytes)
            } else {
                Err(
                    Error::about(
                        ErrorKind::AttachmentNotFound,
                        "Could not find an attachment with id ",
                        attachment_id,
                    ),
                )
            }
        },
        None => Err(
            Error::about(
                ErrorKind::AttachmentNotFound,
                "Could not find an attachment with id ",
                attachment_id,
            ),
        ),
    }
}

/// The mailbox at the top of `node` with the counts that the server gave when
/// the mailbox was selected. A root has no mailbox and stays as it is.
pub fn with_stats(node: Node<Mailbox>, stats: MailboxStats) -> (with: Node<Mailbox>)
    ensures
        with@ == match node@.data() {
            Some(mailbox) => node@.with_data(MailboxView { stats: Some(stats@), ..mailbox }),
            None => node@,
        },
{
    let mut node = node;
    match node.data_mut() {
        Some(mailbox) => {
            mailbox.set_stats(stats);
        },
        None => {},
    }
    node
}

/// The mailbox with the given id in a tree of mailboxes, whatever the case of
/// the id's letters: the first such in pre-order.
pub fn find_mailbox(tree: Node<Mailbox>, mailbox_id: &str) -> (found: Result<Node<Mailbox>, Error>)
    ensures
        match found {
            Ok(node) => tree@.first_match(crate::mailbox::has_id(lowercase(mailbox_id@))) == Some(
                node@,
            ),
            Err(e) => tree@.first_match(crate::mailbox::has_id(lowercase(mailbox_id@))) is None
                && e@.kind == ErrorKind::MailBoxNotFound,
        },
{
    let finder = MailboxFinder::with_id(mailbox_id);
    assert(pred_of::<Mailbox, MailboxFinder>(&finder) =~= crate::mailbox::has_id(
        lowercase(mailbox_id@),
    ));
    match tree.into_find(&finder) {
        Some(node) => Ok(node),
        None => Err(
            Error::about(ErrorKind::MailBoxNotFound, "Could not find a mailbox with id ", mailbox_id),
        ),
    }
}

} // verus!
