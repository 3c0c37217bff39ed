//! The addresses of a message: a single mailbox, or a named group of addresses.

use crate::attachment::opt_text;
use crate::error::{Error, ErrorKind};
use crate::text::{free_of, from_chars, slice_chars, to_chars};
use vstd::prelude::*;
use vstd::string::StringExecFns;

verus! {

/// `email::results::ParsingError`: why a header did not parse.
#[verifier::external_type_specification]
#[verifier::external_body]
pub struct ExParsingError(email::results::ParsingError);

/// What an [`EmailAddress`] holds.
pub struct EmailAddressView {
    pub name: Option<Seq<char>>,
    pub email: Seq<char>,
}

/// The address of one mailbox, with the name of its owner if it is given.
#[derive(Debug)]
pub struct EmailAddress {
    name: Option<String>,
    email: String,
}

impl View for EmailAddress {
    type V = EmailAddressView;

    closed spec fn view(&self) -> EmailAddressView {
        EmailAddressView { name: opt_text(self.name), email: self.email@ }
    }
}

impl EmailAddress {
    pub fn new(name: Option<String>, email: String) -> (address: Self)
        ensures
            address@ == (EmailAddressView { name: opt_text(name), email: email@ }),
    {
        Self { name, email }
    }

    pub fn email(&self) -> (email: &str)
        ensures
            email@ == self@.email,
    {
        self.email.as_str()
    }

    pub fn name(&self) -> (name: Option<&String>)
        ensures
            match name {
                Some(n) => self@.name == Some(n@),
                None => self@.name is None,
            },
    {
        self.name.as_ref()
    }

    /// The address as it is written in a header: the name, where there is
    /// one, and then the address in angle brackets; else the address alone.
    pub fn full(&self) -> (full: String)
        ensures
            full@ == full_address(self@),
    {
        match &self.name {
            Some(name) => {
                let mut full = name.clone();
                full.append(" <");
                full.append(self.email.as_str());
                full.append(">");
                full
            },
            None => self.email.clone(),
        }
    }

    /// The name and the address, by value.
    pub fn into_parts(self) -> (parts: (Option<String>, String))
        ensures
            opt_text(parts.0) == self@.name,
            parts.1@ == self@.email,
    {
        (self.name, self.email)
    }
}

/// A mailbox as it is written in a header.
pub open spec fn full_address(mailbox: EmailAddressView) -> Seq<char> {
    match mailbox.name {
        Some(name) => name + " <"@ + mailbox.email + ">"@,
        None => mailbox.email,
    }
}

/// The mathematical shape of an [`Address`].
pub enum AddressView {
    Group { name: Option<Seq<char>>, list: Seq<AddressView> },
    Single(EmailAddressView),
}

/// One mailbox, or a group of addresses under a name.
#[derive(Debug)]
pub enum Address {
    Group { name: Option<String>, list: Vec<Address> },
    Single(EmailAddress),
}

impl View for Address {
    type V = AddressView;

    open spec fn view(&self) -> AddressView
        decreases self, 0nat,
    {
        match self {
            Address::Group { name, list } => AddressView::Group {
                name: opt_text(*name),
                list: address_views(list@),
            },
            Address::Single(address) => AddressView::Single(address@),
        }
    }
}

/// The shapes of a sequence of addresses.
pub open spec fn address_views(list: Seq<Address>) -> Seq<AddressView>
    decreases list, 1nat,
{
    Seq::new(
        list.len(),
        |i: int|
            if 0 <= i < list.len() {
                list[i]@
            } else {
                AddressView::Group { name: None, list: Seq::empty() }
            },
    )
}

/// The view of an optional address.
pub open spec fn opt_address(address: Option<Address>) -> Option<AddressView> {
    match address {
        Some(address) => Some(address@),
        None => None,
    }
}

/// The mailboxes of an address, from left to right.
pub open spec fn mailboxes(address: AddressView) -> Seq<EmailAddressView>
    decreases address, 0nat,
{
    match address {
        AddressView::Single(mailbox) => seq![mailbox],
        AddressView::Group { list, .. } => mailboxes_in(list, list.len() as int),
    }
}

/// The mailboxes of the first `count` addresses of `list`.
pub open spec fn mailboxes_in(list: Seq<AddressView>, count: int) -> Seq<EmailAddressView>
    decreases list, count,
{
    if count <= 0 || count > list.len() {
        Seq::empty()
    } else {
        mailboxes_in(list, count - 1) + mailboxes(list[count - 1])
    }
}

/// The mailboxes of some addresses are the first of the mailboxes of more.
pub proof fn lemma_mailboxes_grow(list: Seq<AddressView>, count: int, more: int)
    requires
        0 <= count <= more <= list.len(),
    ensures
        mailboxes_in(list, count).len() <= mailboxes_in(list, more).len(),
        forall|k: int| 0 <= k < mailboxes_in(list, count).len() ==> mailboxes_in(list, more)[k]
            == mailboxes_in(list, count)[k],
    decreases more - count,
{
    if more > count {
        lemma_mailboxes_grow(list, count, more - 1);
    }
}

/// The address that a list of addresses stands for: the only one of them, or
/// the group of them without a name.
pub open spec fn list_address(list: Seq<AddressView>) -> AddressView {
    if list.len() == 1 {
        list[0]
    } else {
        AddressView::Group { name: None, list }
    }
}

/// What `email`'s parser reads from the value of an address header: the
/// addresses in it, or nothing where it does not parse.
pub uninterp spec fn header_addresses(header: Seq<char>) -> Option<Seq<AddressView>>;

/// Whether a text ends in a blank or a tab.
pub open spec fn ends_blank(s: Seq<char>) -> bool {
    s.len() > 0 && (s.last() == ' ' || s.last() == '\t')
}

/// The places of the question marks among the first `count` characters, in order.
pub open spec fn marks(s: Seq<char>, count: int) -> Seq<int>
    decreases count,
{
    if count <= 0 || count > s.len() {
        Seq::empty()
    } else if s[count - 1] == '?' {
        marks(s, count - 1).push(count - 1)
    } else {
        marks(s, count - 1)
    }
}

/// Whether a text can be decoded as quoted-printable: each `=` in it is
/// followed by two characters at least.
pub open spec fn q_content_ok(content: Seq<char>) -> bool {
    forall|i: int| 0 <= i < content.len() && content[i] == '=' ==> i + 2 < content.len()
}

/// Whether the encoded word with its second, third and fourth question mark
/// at `b`, `c` and `e` can be decoded: its encoding is the one letter `b`, or
/// the one letter `q` with a content that can be decoded; small or capital.
pub open spec fn encoding_ok(s: Seq<char>, b: int, c: int, e: int) -> bool {
    &&& c == b + 2
    &&& {
        ||| s[b + 1] == 'b'
        ||| s[b + 1] == 'B'
        ||| (s[b + 1] == 'q' || s[b + 1] == 'Q') && q_content_ok(s.subrange(c + 1, e))
    }
}

/// Whether four question marks in a row do not stand in an encoded word, or
/// stand in one that can be decoded. An encoded word is `=?`, a charset, `?`,
/// an encoding, `?`, a content, `?=`.
pub open spec fn window_ok(s: Seq<char>, a: int, b: int, c: int, e: int) -> bool {
    (a >= 1 && s[a - 1] == '=' && e + 1 < s.len() && s[e + 1] == '=') ==> encoding_ok(s, b, c, e)
}

/// Whether every encoded word in a text can be decoded.
pub open spec fn decodable(s: Seq<char>) -> bool {
    forall|k: int|
        0 <= k && k + 3 < marks(s, s.len() as int).len() ==> window_ok(
            s,
            #[trigger] marks(s, s.len() as int)[k],
            marks(s, s.len() as int)[k + 1],
            marks(s, s.len() as int)[k + 2],
            marks(s, s.len() as int)[k + 3],
        )
}

/// Whether the value of an address header is one that the parser takes: it
/// does not end in a blank or a tab, and it holds no question mark, or no
/// backslash and only encoded words that can be decoded.
pub open spec fn parseable(s: Seq<char>) -> bool {
    &&& !ends_blank(s)
    &&& free_of(s, '?') || (free_of(s, '\\') && decodable(s))
}

/// The text without the blanks and tabs at its end.
pub open spec fn without_end_blanks(s: Seq<char>) -> Seq<char>
    decreases s.len(),
{
    if ends_blank(s) {
        without_end_blanks(s.drop_last())
    } else {
        s
    }
}

/// The addresses in the value of an address header, read without the blanks
/// and tabs at its end, or nothing where what is left is not a text that the
/// parser takes, or does not parse.
pub open spec fn addresses_in(header: Seq<char>) -> Option<Seq<AddressView>> {
    if parseable(without_end_blanks(header)) {
        header_addresses(without_end_blanks(header))
    } else {
        None
    }
}

/// The places of question marks are places in the text, hold question marks,
/// and stand in order; there are none where the text holds no question mark.
pub proof fn lemma_marks(s: Seq<char>, count: int)
    requires
        0 <= count <= s.len(),
    ensures
        forall|j: int|
            0 <= j < marks(s, count).len() ==> 0 <= #[trigger] marks(s, count)[j] < count
                && s[marks(s, count)[j]] == '?',
        forall|i: int, j: int|
            0 <= i < j < marks(s, count).len() ==> marks(s, count)[i] < marks(s, count)[j],
        marks(s, count).len() == 0 <==> (forall|i: int| 0 <= i < count ==> s[i] != '?'),
    decreases count,
{
    if count > 0 {
        lemma_marks(s, count - 1);
        let before = marks(s, count - 1);
        if s[count - 1] == '?' {
            assert(marks(s, count).last() == count - 1);
            assert(s[count - 1] == '?');
        } else {
            assert forall|i: int| 0 <= i < count implies s[i] != '?' || before.len() != 0 by {}
        }
    }
}

/// The whole numbers of a sequence of places.
pub open spec fn places(v: Seq<usize>) -> Seq<int> {
    Seq::new(v.len(), |i: int| v[i] as int)
}

fn q_content_is_ok(chars: &Vec<char>, from: usize, to: usize) -> (ok: bool)
    requires
        from <= to <= chars.len(),
    ensures
        ok == q_content_ok(chars@.subrange(from as int, to as int)),
{
    let ghost content = chars@.subrange(from as int, to as int);
    let mut i: usize = from;
    while i < to
        invariant
            from <= i <= to <= chars.len(),
            content == chars@.subrange(from as int, to as int),
            forall|j: int| 0 <= j < i - from && content[j] == '=' ==> j + 2 < content.len(),
        decreases to - i,
    {
        assert(content[i - from] == chars@[i as int]);
        if chars[i] == '=' && to - i <= 2 {
            return false;
        }
        i += 1;
    }
    true
}

fn window_is_ok(chars: &Vec<char>, a: usize, b: usize, c: usize, e: usize) -> (ok: bool)
    requires
        a < b < c < e < chars.len(),
    ensures
        ok == window_ok(chars@, a as int, b as int, c as int, e as int),
{
    if a >= 1 && chars[a - 1] == '=' && e + 1 < chars.len() && chars[e + 1] == '=' {
        if c != b + 2 {
            return false;
        }
        let encoding = chars[b + 1];
        if encoding == 'b' || encoding == 'B' {
            true
        } else if encoding == 'q' || encoding == 'Q' {
            q_content_is_ok(chars, c + 1, e)
        } else {
            false
        }
    } else {
        true
    }
}

/// The text without the blanks and tabs at its end.
pub fn strip_end_blanks(text: &str) -> (stripped: String)
    ensures
        stripped@ == without_end_blanks(text@),
        !ends_blank(stripped@),
{
    let chars = to_chars(text);
    let mut n: usize = chars.len();
    assert(chars@.take(n as int) =~= chars@);
    while n > 0 && (chars[n - 1] == ' ' || chars[n - 1] == '\t')
        invariant
            n <= chars.len(),
            chars@ == text@,
            without_end_blanks(text@) == without_end_blanks(chars@.take(n as int)),
        decreases n,
    {
        assert(chars@.take(n as int).drop_last() =~= chars@.take(n - 1));
        n -= 1;
    }
    let kept = slice_chars(&chars, 0, n);
    assert(kept@ =~= chars@.take(n as int));
    from_chars(&kept)
}

/// Whether the value of an address header is one that the parser takes.
pub fn is_parseable(header: &str) -> (can: bool)
    ensures
        can == parseable(header@),
{
    let chars = to_chars(header);
    let n = chars.len();
    if n > 0 && (chars[n - 1] == ' ' || chars[n - 1] == '\t') {
        return false;
    }
    let mut found: Vec<usize> = Vec::new();
    let mut has_backslash = false;
    let mut i: usize = 0;
    assert(places(found@) =~= marks(chars@, 0));
    while i < n
        invariant
            0 <= i <= n,
            n == chars.len(),
            found.len() <= i,
            places(found@) == marks(chars@, i as int),
            has_backslash <==> exists|j: int| 0 <= j < i && chars@[j] == '\\',
        decreases n - i,
    {
        let ghost before = places(found@);
        if chars[i] == '?' {
            found.push(i);
            assert(places(found@) =~= before.push(i as int));
        }
        if chars[i] == '\\' {
            has_backslash = true;
        }
        i += 1;
    }
    proof {
        lemma_marks(chars@, n as int);
    }
    if found.len() == 0 {
        return true;
    }
    if has_backslash {
        return false;
    }
    let mut k: usize = 0;
    while found.len() >= 4 && k <= found.len() - 4
        invariant
            n == chars.len(),
            chars@ == header@,
            !ends_blank(chars@),
            !free_of(chars@, '?'),
            free_of(chars@, '\\'),
            found.len() <= n,
            places(found@) == marks(chars@, n as int),
            forall|j: int|
                0 <= j < places(found@).len() ==> 0 <= #[trigger] places(found@)[j] < n,
            forall|i: int, j: int|
                0 <= i < j < places(found@).len() ==> places(found@)[i] < places(found@)[j],
            forall|j: int|
                0 <= j < k ==> window_ok(
                    chars@,
                    #[trigger] places(found@)[j],
                    places(found@)[j + 1],
                    places(found@)[j + 2],
                    places(found@)[j + 3],
                ),
        decreases found.len() - k,
    {
        assert(places(found@)[k as int] == found@[k as int]);
        assert(places(found@)[k + 1] == found@[k + 1]);
        assert(places(found@)[k + 2] == found@[k + 2]);
        assert(places(found@)[k + 3] == found@[k + 3]);
        if !window_is_ok(&chars, found[k], found[k + 1], found[k + 2], found[k + 3]) {
            proof {
                let m = marks(chars@, chars@.len() as int);
                assert(!window_ok(chars@, m[k as int], m[k + 1], m[k + 2], m[k + 3]));
                assert(!decodable(chars@));
            }
            return false;
        }
        k += 1;
    }
    true
}

/// Parses the value of an address header with `email::FromHeader` for
/// `Vec<email::Address>`. Each mailbox becomes a single address; each group a
/// group of single addresses under its name. The parser reads past the end of
/// a text that ends in a blank, and gives up loudly on an encoded word that
/// it cannot decode, so such texts are left out.
#[verifier::external_body]
fn parse_address_list(header: String) -> (parsed: Result<Vec<Address>, email::results::ParsingError>)
    requires
        parseable(header@),
    ensures
        match parsed {
            Ok(list) => header_addresses(header@) == Some(address_views(list@)),
            Err(_) => header_addresses(header@) is None,
        },
{
    let list: Vec<email::Address> = email::FromHeader::from_header(header)?;
    Ok(list.into_iter().map(|address| match address {
        email::Address::Mailbox(m) => Address::Single(EmailAddress { name: m.name, email: m.address }),
        email::Address::Group(name, list) => Address::Group {
            name: Some(name),
            list: list.into_iter().map(|m| Address::Single(EmailAddress { name: m.name, email: m.address })).collect(),
        },
    }).collect())
}

/// The views of a sequence of borrowed mailboxes.
pub open spec fn borrowed_views(list: Seq<&EmailAddress>) -> Seq<EmailAddressView> {
    Seq::new(list.len(), |i: int| list[i]@)
}

impl Address {
    /// The address of one mailbox.
    pub fn single(name: Option<String>, address: String) -> (single: Self)
        ensures
            single@ == AddressView::Single(EmailAddressView { name: opt_text(name), email: address@ }),
    {
        Address::Single(EmailAddress::new(name, address))
    }

    /// A group of addresses.
    pub fn group(name: Option<String>, list: Vec<Self>) -> (group: Self)
        ensures
            group@ == (AddressView::Group { name: opt_text(name), list: address_views(list@) }),
    {
        Self::Group { name, list }
    }

    /// The address of one mailbox with the name of its owner.
    pub fn named(name: &str, address: &str) -> (single: Self)
        ensures
            single@ == AddressView::Single(
                EmailAddressView { name: Some(name@), email: address@ },
            ),
    {
        Address::Single(EmailAddress::new(Some(name.to_owned()), address.to_owned()))
    }

    /// The address that a list of addresses stands for: the only one of them,
    /// or the group of them without a name.
    pub fn from_list(list: Vec<Self>) -> (address: Self)
        ensures
            address@ == list_address(address_views(list@)),
    {
        let mut list = list;
        if list.len() == 1 {
            let ghost only = list@[0];
            let first = list.remove(0);
            assert(address_views(seq![only])[0] == only@);
            return first;
        }
        Self::group(None, list)
    }

    /// The mailboxes of the address, from left to right.
    pub fn as_list(&self) -> (list: Vec<&EmailAddress>)
        ensures
            borrowed_views(list@) == mailboxes(self@),
        decreases self,
    {
        let mut addresses: Vec<&EmailAddress> = Vec::new();
        match self {
            Address::Single(addr) => {
                addresses.push(addr);
                assert(borrowed_views(addresses@) =~= mailboxes(self@));
            },
            Address::Group { list, .. } => {
                let mut i: usize = 0;
                assert(borrowed_views(addresses@) =~= mailboxes_in(address_views(list@), 0));
                while i < list.len()
                    invariant
                        0 <= i <= list.len(),
                        self is Group,
                        self->list == *list,
                        borrowed_views(addresses@) == mailboxes_in(address_views(list@), i as int),
                    decreases list.len() - i,
                {
                    let ghost before = borrowed_views(addresses@);
                    assert(address_views(list@)[i as int] == list@[i as int]@);
                    let mut below = list[i].as_list();
                    let ghost more = borrowed_views(below@);
                    addresses.append(&mut below);
                    assert(borrowed_views(addresses@) =~= before + more);
                    i += 1;
                }
            },
        }
        addresses
    }

    /// The first mailbox of the address, if it has one.
    pub fn first(&self) -> (first: Option<&EmailAddress>)
        ensures
            match first {
                Some(mailbox) => mailboxes(self@).len() > 0 && mailboxes(self@)[0] == mailbox@,
                None => mailboxes(self@).len() == 0,
            },
        decreases self,
    {
        match self {
            Address::Group { list, .. } => {
                let mut i: usize = 0;
                while i < list.len()
                    invariant
                        0 <= i <= list.len(),
                        self is Group,
                        self->list == *list,
                        mailboxes_in(address_views(list@), i as int).len() == 0,
                    decreases list.len() - i,
                {
                    assert(address_views(list@)[i as int] == list@[i as int]@);
                    if let Some(addr) = list[i].first() {
                        proof {
                            lemma_mailboxes_grow(address_views(list@), i + 1, list@.len() as int);
                            assert(mailboxes_in(address_views(list@), i + 1)[0] == addr@);
                        }
                        return Some(addr);
                    }
                    i += 1;
                }
                None
            },
            Address::Single(addr) => Some(addr),
        }
    }

    /// The addresses in the value of an address header. Blanks and tabs at
    /// the end of the value are passed over. A value that holds an encoded
    /// word that cannot be decoded does not parse.
    pub fn from_header(header: &str) -> (list: Result<Vec<Self>, Error>)
        ensures
            match list {
                Ok(list) => addresses_in(header@) == Some(address_views(list@)),
                Err(e) => addresses_in(header@) is None && e@.kind == ErrorKind::ParseEmailAddress,
            },
    {
        let text = strip_end_blanks(header);
        if !is_parseable(text.as_str()) {
            return Err(
                Error::about(ErrorKind::ParseEmailAddress, "Failed to parse email address: ", header),
            );
        }
        match parse_address_list(text) {
            Ok(list) => Ok(list),
            Err(_) => Err(
                Error::about(ErrorKind::ParseEmailAddress, "Failed to parse email address: ", header),
            ),
        }
    }
}

} // verus!
