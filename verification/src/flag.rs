//! The flags of a message.

use crate::attachment::opt_text;
use vstd::prelude::*;

verus! {

/// What a [`Flag`] says.
pub enum FlagView {
    HasAttachment,
    Read,
    Deleted,
    Answered,
    Flagged,
    Draft,
    Custom(Option<Seq<char>>),
}

/// A flag of a message: whether it was read, deleted and so on.
#[derive(Debug)]
pub enum Flag {
    HasAttachment,
    Read,
    Deleted,
    Answered,
    Flagged,
    Draft,
    Custom(Option<String>),
}

impl View for Flag {
    type V = FlagView;

    open spec fn view(&self) -> FlagView {
        match self {
            Flag::HasAttachment => FlagView::HasAttachment,
            Flag::Read => FlagView::Read,
            Flag::Deleted => FlagView::Deleted,
            Flag::Answered => FlagView::Answered,
            Flag::Flagged => FlagView::Flagged,
            Flag::Draft => FlagView::Draft,
            Flag::Custom(name) => FlagView::Custom(opt_text(*name)),
        }
    }
}

/// The views of a sequence of flags.
pub open spec fn flag_views(flags: Seq<Flag>) -> Seq<FlagView> {
    Seq::new(flags.len(), |i: int| flags[i]@)
}

/// The flags that a stored message has: one for each of the marks `seen`,
/// `flagged`, `draft`, `trashed` and `replied` that its entry bears, in that order.
pub open spec fn entry_flags(seen: bool, flagged: bool, draft: bool, trashed: bool, replied: bool) -> Seq<
    FlagView,
> {
    (if seen {
        seq![FlagView::Read]
    } else {
        Seq::empty()
    }) + (if flagged {
        seq![FlagView::Flagged]
    } else {
        Seq::empty()
    }) + (if draft {
        seq![FlagView::Draft]
    } else {
        Seq::empty()
    }) + (if trashed {
        seq![FlagView::Deleted]
    } else {
        Seq::empty()
    }) + (if replied {
        seq![FlagView::Answered]
    } else {
        Seq::empty()
    })
}

/// The flags of a message that a POP session has retrieved: it counts as
/// read, and as deleted where the session has marked it so.
pub open spec fn retrieved_flags(deleted: bool) -> Seq<FlagView> {
    if deleted {
        seq![FlagView::Read, FlagView::Deleted]
    } else {
        seq![FlagView::Read]
    }
}

impl Flag {
    /// The flags of a message that a POP session has retrieved.
    pub fn of_retrieved(deleted: bool) -> (flags: Vec<Flag>)
        ensures
            flag_views(flags@) == retrieved_flags(deleted),
    {
        let mut flags: Vec<Flag> = Vec::new();
        flags.push(Flag::Read);
        if deleted {
            flags.push(Flag::Deleted);
        }
        assert(flag_views(flags@) =~= retrieved_flags(deleted));
        flags
    }

    /// The flags of a stored message, from the marks that its entry bears.
    pub fn of_entry(seen: bool, flagged: bool, draft: bool, trashed: bool, replied: bool) -> (flags: Vec<
        Flag,
    >)
        ensures
            flag_views(flags@) == entry_flags(seen, flagged, draft, trashed, replied),
    {
        let mut flags: Vec<Flag> = Vec::new();
        if seen {
            flags.push(Flag::Read);
        }
        if flagged {
            flags.push(Flag::Flagged);
        }
        if draft {
            flags.push(Flag::Draft);
        }
        if trashed {
            flags.push(Flag::Deleted);
        }
        if replied {
            flags.push(Flag::Answered);
        }
        assert(flag_views(flags@) =~= entry_flags(seen, flagged, draft, trashed, replied));
        flags
    }
}

} // verus!
