//! Part numbers: the dotted paths that address one part of a multipart message.

use crate::error::{Error, ErrorKind};
use crate::text::{
    decimal, decimal_text, free_of, join, lemma_decimal_reads_back, lemma_split_join,
    parse_number, parse_u64, split, split_text, to_chars,
};
use vstd::prelude::*;
use vstd::string::StringExecFns;

verus! {

/// The delimiter between the segments of a part number.
pub open spec fn dot() -> Seq<char> {
    seq!['.']
}

/// Each segment written in decimal.
pub open spec fn segment_texts(path: Seq<usize>) -> Seq<Seq<char>> {
    Seq::new(path.len(), |i: int| decimal(path[i] as nat))
}

/// A part number as text: its segments in decimal, with dots between them.
pub open spec fn rendered(path: Seq<usize>) -> Seq<char> {
    join(segment_texts(path), dot())
}

/// Whether every piece reads as a number that fits in `usize`.
pub open spec fn all_numbers(pieces: Seq<Seq<char>>) -> bool {
    forall|i: int| 0 <= i < pieces.len() ==> parse_number(#[trigger] pieces[i], usize::MAX as nat) is Some
}

/// The part number that a text writes: the text is split on dots, and every
/// piece must read as a number.
pub open spec fn parsed(s: Seq<char>) -> Option<Seq<usize>> {
    let pieces = split(s, dot());
    if all_numbers(pieces) {
        Some(Seq::new(pieces.len(), |i: int| parse_number(pieces[i], usize::MAX as nat)->0 as usize))
    } else {
        None
    }
}

/// Reading a rendered part number gives the part number back, as long as it
/// has a segment at all.
pub proof fn lemma_render_then_parse(path: Seq<usize>)
    requires
        path.len() > 0,
    ensures
        parsed(rendered(path)) == Some(path),
{
    let pieces = segment_texts(path);
    assert forall|i: int| 0 <= i < pieces.len() implies free_of(#[trigger] pieces[i], '.') by {
        lemma_decimal_reads_back(path[i] as nat);
        assert forall|j: int| 0 <= j < pieces[i].len() implies pieces[i][j] != '.' by {
            assert(crate::text::digit_value(decimal(path[i] as nat)[j]) is Some);
        }
    }
    lemma_split_join(pieces, '.');
    assert(split(rendered(path), dot()) == pieces);
    assert forall|i: int| 0 <= i < pieces.len() implies parse_number(
        #[trigger] pieces[i],
        usize::MAX as nat,
    ) == Some(path[i] as nat) by {
        crate::text::lemma_parse_decimal(path[i] as nat, usize::MAX as nat);
    }
    assert(parsed(rendered(path))->0 =~= path);
}

/// A path into a multipart tree: at each level, the place of a part among its
/// siblings, counted from one.
#[derive(Debug)]
pub struct PartNumber {
    inner: Vec<usize>,
}

impl View for PartNumber {
    type V = Seq<usize>;

    closed spec fn view(&self) -> Seq<usize> {
        self.inner@
    }
}

impl Clone for PartNumber {
    fn clone(&self) -> (copy: Self)
        ensures
            copy@ == self@,
    {
        let mut inner: Vec<usize> = Vec::new();
        let mut i: usize = 0;
        while i < self.inner.len()
            invariant
                0 <= i <= self.inner.len(),
                inner@ == self.inner@.take(i as int),
            decreases self.inner.len() - i,
        {
            inner.push(self.inner[i]);
            assert(self.inner@.take(i + 1) =~= self.inner@.take(i as int).push(self.inner@[i as int]));
            i += 1;
        }
        assert(self.inner@.take(self.inner@.len() as int) =~= self.inner@);
        PartNumber { inner }
    }
}

impl PartNumber {
    /// The empty path, which addresses the whole message.
    pub fn new() -> (number: Self)
        ensures
            number@ == Seq::<usize>::empty(),
    {
        Self { inner: Vec::new() }
    }

    /// A copy with one more segment.
    pub fn clone_and_add(&self, i: usize) -> (longer: Self)
        ensures
            longer@ == self@.push(i),
    {
        let mut cloned = self.clone();
        cloned.add(i);
        cloned
    }

    /// Appends one segment.
    pub fn add(&mut self, i: usize)
        ensures
            final(self)@ == old(self)@.push(i),
    {
        self.inner.push(i);
    }

    /// The number of segments.
    pub fn len(&self) -> (len: usize)
        ensures
            len == self@.len(),
    {
        self.inner.len()
    }

    /// The segments, for the section address of a fetch: each segment in 32 bits.
    pub fn section_path(&self) -> (path: Vec<u32>)
        ensures
            path@.len() == self@.len(),
            forall|i: int| 0 <= i < path@.len() ==> #[trigger] path@[i] == self@[i] as u32,
    {
        let mut path: Vec<u32> = Vec::new();
        let mut i: usize = 0;
        while i < self.inner.len()
            invariant
                0 <= i <= self.inner.len(),
                path@.len() == i,
                forall|j: int| 0 <= j < i ==> #[trigger] path@[j] == self.inner@[j] as u32,
            decreases self.inner.len() - i,
        {
            let segment = self.inner[i];
            let low: u32 = #[verifier::truncate] (segment as u32);
            path.push(low);
            i += 1;
        }
        path
    }

    /// The part number as text, such as `1.2.1`.
    pub fn to_text(&self) -> (text: String)
        ensures
            text@ == rendered(self@),
    {
        let mut pieces: Vec<String> = Vec::new();
        let mut i: usize = 0;
        while i < self.inner.len()
            invariant
                0 <= i <= self.inner.len(),
                pieces@.len() == i,
                forall|j: int| 0 <= j < i ==> (#[trigger] pieces@[j])@ == decimal(self.inner@[j] as nat),
            decreases self.inner.len() - i,
        {
            pieces.push(decimal_text(self.inner[i] as u64));
            i += 1;
        }
        proof {
            reveal_strlit(".");
            assert("."@ =~= dot());
            assert(crate::text::texts(pieces@) =~= segment_texts(self@));
            assert(crate::text::texts(pieces@).take(pieces@.len() as int) =~= crate::text::texts(
                pieces@,
            ));
        }
        crate::text::join_text(&pieces, pieces.len(), ".")
    }

    /// Reads a part number from text such as `1.2.1`.
    pub fn parse(s: &str) -> (number: Result<Self, Error>)
        ensures
            match number {
                Ok(n) => parsed(s@) == Some(n@),
                Err(e) => parsed(s@) is None && e@.kind == ErrorKind::ParseInt,
            },
    {
        proof {
            reveal_strlit(".");
            assert("."@ =~= dot());
        }
        let pieces = split_text(s, ".");
        let mut inner: Vec<usize> = Vec::new();
        let mut i: usize = 0;
        while i < pieces.len()
            invariant
                0 <= i <= pieces.len(),
                crate::text::texts(pieces@) == split(s@, dot()),
                inner@.len() == i,
                forall|j: int| 0 <= j < i ==> parse_number(#[trigger] pieces@[j]@, usize::MAX as nat) == Some(inner@[j] as nat),
            decreases pieces.len() - i,
        {
            let chars = to_chars(pieces[i].as_str());
            let segment: usize = match parse_u64(&chars) {
                Some(n) => {
                    if n > usize::MAX as u64 {
                        proof {
                            assert(crate::text::texts(pieces@)[i as int] == pieces@[i as int]@);
                        }
                        return Err(
                            Error::about(
                                ErrorKind::ParseInt,
                                "Failed to parse integer value from string: ",
                                s,
                            ),
                        );
                    }
                    n as usize
                },
                None => {
                    proof {
                        assert(crate::text::texts(pieces@)[i as int] == pieces@[i as int]@);
                    }
                    return Err(
                        Error::about(
                            ErrorKind::ParseInt,
                            "Failed to parse integer value from string: ",
                            s,
                        ),
                    );
                },
            };
            inner.push(segment);
            i += 1;
        }
        proof {
            let split_pieces = split(s@, dot());
            assert forall|j: int| 0 <= j < split_pieces.len() implies parse_number(
                #[trigger] split_pieces[j],
                usize::MAX as nat,
            ) == Some(inner@[j] as nat) by {
                assert(crate::text::texts(pieces@)[j] == pieces@[j]@);
            }
            assert(parsed(s@)->0 =~= inner@);
        }
        Ok(PartNumber { inner })
    }
}

impl std::str::FromStr for PartNumber {
    type Err = Error;

    /// Reads a part number from text such as `1.2.1`, as [`PartNumber::parse`] does.
    fn from_str(s: &str) -> (number: Result<Self, Error>)
        ensures
            match number {
                Ok(n) => parsed(s@) == Some(n@),
                Err(e) => parsed(s@) is None && e@.kind == ErrorKind::ParseInt,
            },
    {
        PartNumber::parse(s)
    }
}

} // verus!
