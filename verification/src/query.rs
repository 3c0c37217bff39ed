//! The item list of a fetch command, built one item at a time.

use crate::part_number::{rendered, PartNumber};
use crate::text::{join, join_text, texts};
use vstd::prelude::*;
use vstd::string::StringExecFns;

verus! {

/// The item that asks for one body section.
pub open spec fn section_item(path: Seq<usize>) -> Seq<char> {
    "BODY["@ + rendered(path) + "]"@
}

/// The item that asks for the named header fields, or for the whole header
/// block where no field is named.
pub open spec fn headers_item(names: Seq<Seq<char>>) -> Seq<char> {
    if names.len() == 0 {
        "BODY[HEADER]"@
    } else {
        "BODY[HEADER.FIELDS ("@ + join(names, " "@) + ")]"@
    }
}

/// The items in parentheses, with one space between each two of them.
pub open spec fn item_list(items: Seq<Seq<char>>) -> Seq<char> {
    "("@ + join(items, " "@) + ")"@
}

/// The character sequences of a sequence of string slices.
pub open spec fn slices(names: Seq<&str>) -> Seq<Seq<char>> {
    Seq::new(names.len(), |i: int| names[i]@)
}

/// Accumulates the items of a fetch, in the order in which they were asked for.
pub struct QueryBuilder {
    query: Vec<String>,
}

impl View for QueryBuilder {
    type V = Seq<Seq<char>>;

    closed spec fn view(&self) -> Seq<Seq<char>> {
        texts(self.query@)
    }
}

impl Default for QueryBuilder {
    /// The items that every fetch of this library starts with.
    fn default() -> (builder: Self)
        ensures
            builder@ == seq!["FLAGS"@, "RFC822.SIZE"@, "UID"@],
    {
        let builder = Self::new().flags().size().uid();
        assert(builder@ =~= seq!["FLAGS"@, "RFC822.SIZE"@, "UID"@]);
        builder
    }
}

impl QueryBuilder {
    /// A builder without items.
    pub fn new() -> (builder: Self)
        ensures
            builder@ == Seq::<Seq<char>>::empty(),
    {
        let builder = Self { query: Vec::new() };
        assert(builder@ =~= Seq::<Seq<char>>::empty());
        builder
    }

    fn with(self, item: String) -> (builder: Self)
        ensures
            builder@ == self@.push(item@),
    {
        let mut query = self.query;
        query.push(item);
        let builder = Self { query };
        assert(builder@ =~= self@.push(item@));
        builder
    }

    /// The item list, as the fetch command takes it.
    pub fn build(self) -> (query: String)
        ensures
            query@ == item_list(self@),
    {
        let mut query = "(".to_owned();
        assert(texts(self.query@).take(self.query@.len() as int) =~= texts(self.query@));
        let items = join_text(&self.query, self.query.len(), " ");
        query.append(items.as_str());
        query.append(")");
        query
    }

    /// Asks for the flags.
    pub fn flags(self) -> (builder: Self)
        ensures
            builder@ == self@.push("FLAGS"@),
    {
        self.with("FLAGS".to_owned())
    }

    /// Asks for the size.
    pub fn size(self) -> (builder: Self)
        ensures
            builder@ == self@.push("RFC822.SIZE"@),
    {
        self.with("RFC822.SIZE".to_owned())
    }

    /// Asks for the body section that `section` addresses.
    pub fn section(self, section: &PartNumber) -> (builder: Self)
        ensures
            builder@ == self@.push(section_item(section@)),
    {
        let mut item = "BODY[".to_owned();
        item.append(section.to_text().as_str());
        item.append("]");
        self.with(item)
    }

    /// Asks for the body structure.
    pub fn bodystructure(self) -> (builder: Self)
        ensures
            builder@ == self@.push("BODYSTRUCTURE"@),
    {
        self.with("BODYSTRUCTURE".to_owned())
    }

    /// Asks for the unique id.
    pub fn uid(self) -> (builder: Self)
        ensures
            builder@ == self@.push("UID"@),
    {
        self.with("UID".to_owned())
    }

    /// Asks for the named header fields; without names, for the whole header block.
    pub fn headers(self, headers: Vec<&str>) -> (builder: Self)
        ensures
            builder@ == self@.push(headers_item(slices(headers@))),
    {
        if headers.len() > 0 {
            let mut names: Vec<String> = Vec::new();
            let mut i: usize = 0;
            while i < headers.len()
                invariant
                    0 <= i <= headers.len(),
                    names@.len() == i,
                    forall|j: int| 0 <= j < i ==> (#[trigger] names@[j])@ == headers@[j]@,
                decreases headers.len() - i,
            {
                names.push(headers[i].to_owned());
                i += 1;
            }
            assert(texts(names@) =~= slices(headers@));
            assert(texts(names@).take(names@.len() as int) =~= texts(names@));
            let mut item = "BODY[HEADER.FIELDS (".to_owned();
            item.append(join_text(&names, names.len(), " ").as_str());
            item.append(")]");
            self.with(item)
        } else {
            self.with("BODY[HEADER]".to_owned())
        }
    }
}

} // verus!
