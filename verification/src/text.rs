//! Text helpers: characters of a string, splitting and joining on a
//! delimiter, decimal numbers, and letter case.

use vstd::prelude::*;
use vstd::std_specs::iter::IteratorSpec;

verus! {

/// `String::push` appends one character.
pub assume_specification[ String::push ](s: &mut String, c: char)
    ensures
        final(s)@ == old(s)@.push(c),
;

/// The characters of `s`, in order.
pub fn to_chars(s: &str) -> (chars: Vec<char>)
    ensures
        chars@ == s@,
{
    let mut chars: Vec<char> = Vec::new();
    let it0 = s.chars();
    for c in it: it0
        invariant
            it.seq() == s@,
            chars@ == s@.take(it.index() as int),
    {
        chars.push(c);
        assert(s@.take(it.index() + 1) =~= s@.take(it.index() as int).push(c));
    }
    assert(s@.take(s@.len() as int) =~= s@);
    chars
}

/// The string made of `chars`, in order.
pub fn from_chars(chars: &Vec<char>) -> (s: String)
    ensures
        s@ == chars@,
{
    let mut s = String::new();
    let mut i: usize = 0;
    while i < chars.len()
        invariant
            0 <= i <= chars.len(),
            s@ == chars@.take(i as int),
        decreases chars.len() - i,
    {
        s.push(chars[i]);
        assert(chars@.take(i + 1) =~= chars@.take(i as int).push(chars@[i as int]));
        i += 1;
    }
    assert(chars@.take(chars@.len() as int) =~= chars@);
    s
}

/// The character sequences of a sequence of strings.
pub open spec fn texts(strings: Seq<String>) -> Seq<Seq<char>> {
    Seq::new(strings.len(), |i: int| strings[i]@)
}

/// The character sequences of a sequence of character vectors.
pub open spec fn rows(vectors: Seq<Vec<char>>) -> Seq<Seq<char>> {
    Seq::new(vectors.len(), |i: int| vectors[i]@)
}

/// What `str::to_lowercase` makes of a text.
pub uninterp spec fn lowercase(s: Seq<char>) -> Seq<char>;

/// `str::to_lowercase` gives the lowercase form of the text, a function of the text alone.
pub assume_specification[ str::to_lowercase ](s: &str) -> (lower: String)
    ensures
        lower@ == lowercase(s@),
;

/// A character with an ASCII capital letter turned into its small letter.
pub open spec fn ascii_lower_char(c: char) -> char {
    if 'A' <= c <= 'Z' {
        ((c as u32) + 32) as char
    } else {
        c
    }
}

/// A text with its ASCII capital letters turned into small letters.
pub open spec fn ascii_lowercase(s: Seq<char>) -> Seq<char> {
    Seq::new(s.len(), |i: int| ascii_lower_char(s[i]))
}

/// `str::to_ascii_lowercase` turns the ASCII letters `A` to `Z` into `a` to
/// `z` and leaves every other character as it is.
pub assume_specification[ str::to_ascii_lowercase ](s: &str) -> (lower: String)
    ensures
        lower@ == ascii_lowercase(s@),
;

/// Whether `s` begins with `prefix`.
pub open spec fn begins_with(s: Seq<char>, prefix: Seq<char>) -> bool {
    prefix.len() <= s.len() && s.subrange(0, prefix.len() as int) == prefix
}

/// What `str::trim` leaves of a text.
pub uninterp spec fn trimmed(s: Seq<char>) -> Seq<char>;

/// `str::trim` gives the text without its leading and trailing white space, a
/// function of the text alone.
pub assume_specification<'a>[ str::trim ](s: &'a str) -> (t: &'a str)
    ensures
        t@ == trimmed(s@),
;

/// Whether `d` stands in `s` at position `i`.
pub open spec fn occurs_at(s: Seq<char>, d: Seq<char>, i: int) -> bool {
    0 <= i && i + d.len() <= s.len() && s.subrange(i, i + d.len()) == d
}

/// The first position at or after `from` at which `d` stands in `s`.
pub open spec fn first_occurrence(s: Seq<char>, d: Seq<char>, from: int) -> Option<int>
    decreases s.len() + 1 - from,
{
    if from < 0 || from + d.len() > s.len() {
        None
    } else if occurs_at(s, d, from) {
        Some(from)
    } else {
        first_occurrence(s, d, from + 1)
    }
}

/// The pieces of `s` between the occurrences of `d`, taken from left to right
/// without overlap. An empty `d` stands before, between and after all characters.
pub open spec fn split(s: Seq<char>, d: Seq<char>) -> Seq<Seq<char>>
    decreases s.len(),
{
    if d.len() == 0 {
        seq![Seq::<char>::empty()] + Seq::new(s.len(), |i: int| seq![s[i]]) + seq![
            Seq::<char>::empty(),
        ]
    } else {
        match first_occurrence(s, d, 0) {
            Some(i) => if 0 <= i && i + d.len() <= s.len() {
                seq![s.subrange(0, i)] + split(s.subrange(i + d.len(), s.len() as int), d)
            } else {
                seq![s]
            },
            None => seq![s],
        }
    }
}

/// The pieces put together with `d` between each two of them.
pub open spec fn join(parts: Seq<Seq<char>>, d: Seq<char>) -> Seq<char>
    decreases parts.len(),
{
    if parts.len() == 0 {
        Seq::empty()
    } else if parts.len() == 1 {
        parts[0]
    } else {
        join(parts.drop_last(), d) + d + parts.last()
    }
}

/// No occurrence before `k` means that the search may as well start at `k`.
pub proof fn lemma_first_occurrence_skip(s: Seq<char>, d: Seq<char>, k: int)
    requires
        0 <= k,
        forall|j: int| 0 <= j < k ==> !occurs_at(s, d, j),
    ensures
        first_occurrence(s, d, 0) == first_occurrence(s, d, k),
    decreases k,
{
    if k > 0 {
        lemma_first_occurrence_skip(s, d, k - 1);
        if k - 1 + d.len() <= s.len() {
            assert(!occurs_at(s, d, k - 1));
        } else {
        }
    }
}

/// Whether `d` stands in `s` at position `i`.
fn matches_at(s: &Vec<char>, d: &Vec<char>, i: usize) -> (found: bool)
    requires
        i + d.len() <= s.len(),
    ensures
        found == occurs_at(s@, d@, i as int),
{
    let mut k: usize = 0;
    while k < d.len()
        invariant
            0 <= k <= d.len(),
            i + d.len() <= s.len(),
            s@.subrange(i as int, i + k) == d@.take(k as int),
        decreases d.len() - k,
    {
        if s[i + k] != d[k] {
            proof {
                let window = s@.subrange(i as int, i + d.len());
                assert(window[k as int] != d@[k as int]);
            }
            return false;
        }
        assert(s@.subrange(i as int, i + k + 1) =~= s@.subrange(i as int, i + k).push(
            s@[i + k],
        ));
        assert(d@.take(k + 1) =~= d@.take(k as int).push(d@[k as int]));
        k += 1;
    }
    assert(d@.take(d@.len() as int) =~= d@);
    true
}

/// A copy of `s[from..to]`.
pub(crate) fn slice_chars(s: &Vec<char>, from: usize, to: usize) -> (piece: Vec<char>)
    requires
        from <= to <= s.len(),
    ensures
        piece@ == s@.subrange(from as int, to as int),
{
    let mut piece: Vec<char> = Vec::new();
    let mut i: usize = from;
    while i < to
        invariant
            from <= i <= to <= s.len(),
            piece@ == s@.subrange(from as int, i as int),
        decreases to - i,
    {
        piece.push(s[i]);
        assert(s@.subrange(from as int, i + 1) =~= s@.subrange(from as int, i as int).push(
            s@[i as int],
        ));
        i += 1;
    }
    piece
}

/// Splits `s` on `d`.
pub fn split_chars(s: &Vec<char>, d: &Vec<char>) -> (parts: Vec<Vec<char>>)
    ensures
        rows(parts@) == split(s@, d@),
{
    let mut parts: Vec<Vec<char>> = Vec::new();
    if d.len() == 0 {
        parts.push(Vec::new());
        let mut i: usize = 0;
        while i < s.len()
            invariant
                0 <= i <= s.len(),
                parts@.len() == i + 1,
                parts@[0]@ == Seq::<char>::empty(),
                forall|j: int| 0 <= j < i ==> (#[trigger] parts@[j + 1])@ == seq![s@[j]],
            decreases s.len() - i,
        {
            let mut one: Vec<char> = Vec::new();
            one.push(s[i]);
            assert(one@ =~= seq![s@[i as int]]);
            parts.push(one);
            i += 1;
        }
        parts.push(Vec::new());
        assert(rows(parts@) =~= split(s@, d@)) by {
            let want = split(s@, d@);
            assert(want.len() == parts@.len());
            assert forall|j: int| 0 <= j < parts@.len() implies rows(parts@)[j] == want[j] by {
                if 0 < j < parts@.len() - 1 {
                    assert(parts@[(j - 1) + 1]@ == seq![s@[j - 1]]);
                }
            }
        }
        return parts;
    }
    let mut start: usize = 0;
    let mut i: usize = 0;
    assert(s@.skip(0) =~= s@);
    assert(rows(parts@) =~= Seq::<Seq<char>>::empty());
    while d.len() <= s.len() && i <= s.len() - d.len()
        invariant
            d.len() > 0,
            0 <= start <= i <= s.len(),
            split(s@, d@) == rows(parts@) + split(s@.skip(start as int), d@),
            forall|j: int| 0 <= j < i - start ==> !occurs_at(s@.skip(start as int), d@, j),
        decreases s.len() + d.len() - i,
    {
        let ghost rest = s@.skip(start as int);
        assert(occurs_at(rest, d@, i - start) == occurs_at(s@, d@, i as int)) by {
            assert(rest.subrange(i - start, i - start + d@.len()) =~= s@.subrange(
                i as int,
                i + d@.len(),
            ));
        }
        if matches_at(s, d, i) {
            let piece = slice_chars(s, start, i);
            proof {
                lemma_first_occurrence_skip(rest, d@, i - start);
                assert(first_occurrence(rest, d@, 0) == Some(i - start));
                assert(rest.subrange(0, i - start) =~= piece@);
                assert(rest.subrange(i - start + d@.len(), rest.len() as int) =~= s@.skip(
                    i + d@.len(),
                ));
                assert(split(rest, d@) == seq![piece@] + split(s@.skip(i + d@.len()), d@));
            }
            let ghost before = rows(parts@);
            parts.push(piece);
            assert(rows(parts@) =~= before + seq![piece@]);
            assert(before + (seq![piece@] + split(s@.skip(i + d@.len()), d@)) =~= (before + seq![
                piece@,
            ]) + split(s@.skip(i + d@.len()), d@));
            i = i + d.len();
            start = i;
        } else {
            i += 1;
        }
    }
    let piece = slice_chars(s, start, s.len());
    proof {
        let rest = s@.skip(start as int);
        assert(rest =~= piece@);
        lemma_no_occurrence(rest, d@, i - start);
    }
    let ghost before = rows(parts@);
    parts.push(piece);
    assert(rows(parts@) =~= before + seq![piece@]);
    parts
}

/// Where `d` does not stand before `k` and cannot fit at or after `k`, it
/// does not stand in `s` at all.
pub proof fn lemma_no_occurrence(s: Seq<char>, d: Seq<char>, k: int)
    requires
        0 <= k,
        k + d.len() > s.len(),
        forall|j: int| 0 <= j < k ==> !occurs_at(s, d, j),
    ensures
        first_occurrence(s, d, 0) is None,
{
    lemma_first_occurrence_skip(s, d, k);
}

/// The character of a decimal digit.
pub open spec fn digit_char(d: nat) -> char {
    if d == 0 {
        '0'
    } else if d == 1 {
        '1'
    } else if d == 2 {
        '2'
    } else if d == 3 {
        '3'
    } else if d == 4 {
        '4'
    } else if d == 5 {
        '5'
    } else if d == 6 {
        '6'
    } else if d == 7 {
        '7'
    } else if d == 8 {
        '8'
    } else {
        '9'
    }
}

/// The value of a decimal digit, if the character is one.
pub open spec fn digit_value(c: char) -> Option<nat> {
    if c == '0' {
        Some(0)
    } else if c == '1' {
        Some(1)
    } else if c == '2' {
        Some(2)
    } else if c == '3' {
        Some(3)
    } else if c == '4' {
        Some(4)
    } else if c == '5' {
        Some(5)
    } else if c == '6' {
        Some(6)
    } else if c == '7' {
        Some(7)
    } else if c == '8' {
        Some(8)
    } else if c == '9' {
        Some(9)
    } else {
        None
    }
}

/// A number written in decimal, without sign or leading zeros.
pub open spec fn decimal(n: nat) -> Seq<char>
    decreases n,
{
    if n < 10 {
        seq![digit_char(n)]
    } else {
        decimal(n / 10).push(digit_char(n % 10))
    }
}

/// The number that a non-empty run of decimal digits writes.
pub open spec fn number_value(s: Seq<char>) -> Option<nat>
    decreases s.len(),
{
    if s.len() == 0 {
        None
    } else {
        match digit_value(s.last()) {
            None => None,
            Some(low) => if s.len() == 1 {
                Some(low)
            } else {
                match number_value(s.drop_last()) {
                    Some(high) => Some(high * 10 + low),
                    None => None,
                }
            },
        }
    }
}

/// The number that `s` writes, if it is an optional `+` and then decimal
/// digits, and the number is at most `max`.
pub open spec fn parse_number(s: Seq<char>, max: nat) -> Option<nat> {
    let body = if s.len() > 0 && s[0] == '+' {
        s.skip(1)
    } else {
        s
    };
    match number_value(body) {
        Some(value) => if value <= max {
            Some(value)
        } else {
            None
        },
        None => None,
    }
}

/// A number that reads as `Some` has prefixes that read as smaller numbers.
pub proof fn lemma_number_value_prefix(s: Seq<char>, k: int)
    requires
        1 <= k <= s.len(),
        number_value(s) is Some,
    ensures
        number_value(s.take(k)) is Some,
        number_value(s.take(k))->0 <= number_value(s)->0,
    decreases s.len(),
{
    if k == s.len() {
        assert(s.take(k) =~= s);
    } else {
        assert(s.drop_last().take(k) =~= s.take(k));
        lemma_number_value_prefix(s.drop_last(), k);
    }
}

/// Reading a number written in decimal gives the number back.
pub proof fn lemma_decimal_reads_back(n: nat)
    ensures
        decimal(n).len() > 0,
        number_value(decimal(n)) == Some(n),
        forall|i: int| 0 <= i < decimal(n).len() ==> digit_value(#[trigger] decimal(n)[i]) is Some,
    decreases n,
{
    if n >= 10 {
        lemma_decimal_reads_back(n / 10);
        assert(decimal(n).drop_last() =~= decimal(n / 10));
    }
}

/// Reading a number written in decimal gives the number back, within `max`.
pub proof fn lemma_parse_decimal(n: nat, max: nat)
    requires
        n <= max,
    ensures
        parse_number(decimal(n), max) == Some(n),
{
    lemma_decimal_reads_back(n);
    assert(digit_value(decimal(n)[0]) is Some);
}

/// The character of a decimal digit.
fn digit(d: u8) -> (c: char)
    requires
        d < 10,
    ensures
        c == digit_char(d as nat),
{
    if d == 0 {
        '0'
    } else if d == 1 {
        '1'
    } else if d == 2 {
        '2'
    } else if d == 3 {
        '3'
    } else if d == 4 {
        '4'
    } else if d == 5 {
        '5'
    } else if d == 6 {
        '6'
    } else if d == 7 {
        '7'
    } else if d == 8 {
        '8'
    } else {
        '9'
    }
}

/// The value of a decimal digit, if the character is one.
pub fn digit_of(c: char) -> (d: Option<u8>)
    ensures
        match d {
            Some(v) => digit_value(c) == Some(v as nat) && v < 10,
            None => digit_value(c) is None,
        },
{
    if c == '0' {
        Some(0)
    } else if c == '1' {
        Some(1)
    } else if c == '2' {
        Some(2)
    } else if c == '3' {
        Some(3)
    } else if c == '4' {
        Some(4)
    } else if c == '5' {
        Some(5)
    } else if c == '6' {
        Some(6)
    } else if c == '7' {
        Some(7)
    } else if c == '8' {
        Some(8)
    } else if c == '9' {
        Some(9)
    } else {
        None
    }
}

/// Appends `n`, written in decimal, to `out`.
pub fn push_decimal(out: &mut Vec<char>, n: u64)
    ensures
        final(out)@ == old(out)@ + decimal(n as nat),
    decreases n,
{
    if n >= 10 {
        push_decimal(out, n / 10);
    }
    let low = (n % 10) as u8;
    out.push(digit(low));
    assert(out@ =~= old(out)@ + decimal(n as nat));
}

/// `n` written in decimal.
pub fn decimal_chars(n: u64) -> (chars: Vec<char>)
    ensures
        chars@ == decimal(n as nat),
{
    let mut chars: Vec<char> = Vec::new();
    push_decimal(&mut chars, n);
    assert(chars@ =~= decimal(n as nat));
    chars
}

/// Reads an optional `+` and then decimal digits as a number of at most `u64::MAX`.
pub fn parse_u64(s: &Vec<char>) -> (number: Option<u64>)
    ensures
        match number {
            Some(n) => parse_number(s@, u64::MAX as nat) == Some(n as nat),
            None => parse_number(s@, u64::MAX as nat) is None,
        },
{
    let first: usize = if s.len() > 0 && s[0] == '+' {
        1
    } else {
        0
    };
    let ghost body = s@.skip(first as int);
    assert(s@.skip(0) =~= s@);
    assert(body == if s@.len() > 0 && s@[0] == '+' {
        s@.skip(1)
    } else {
        s@
    });
    if first == s.len() {
        return None;
    }
    let mut value: u64 = 0;
    let mut i: usize = first;
    while i < s.len()
        invariant
            first <= i <= s.len(),
            first < s.len(),
            body == s@.skip(first as int),
            body == if s@.len() > 0 && s@[0] == '+' {
                s@.skip(1)
            } else {
                s@
            },
            i > first ==> number_value(body.take(i - first)) == Some(value as nat),
            i == first ==> value == 0,
        decreases s.len() - i,
    {
        let ghost seen = body.take(i - first);
        let ghost next = body.take(i - first + 1);
        assert(next.drop_last() =~= seen);
        assert(next.last() == s@[i as int]);
        assert(number_value(next) == match digit_value(s@[i as int]) {
            Some(low) => Some((value * 10 + low) as nat),
            None => None,
        });
        let low = match digit_of(s[i]) {
            Some(low) => low,
            None => {
                proof {
                    if number_value(body) is Some {
                        lemma_number_value_prefix(body, i - first + 1);
                    }
                }
                return None;
            },
        };
        let scaled = match value.checked_mul(10) {
            Some(scaled) => scaled,
            None => {
                proof {
                    if number_value(body) is Some {
                        lemma_number_value_prefix(body, i - first + 1);
                    }
                }
                return None;
            },
        };
        value = match scaled.checked_add(low as u64) {
            Some(sum) => sum,
            None => {
                proof {
                    if number_value(body) is Some {
                        lemma_number_value_prefix(body, i - first + 1);
                    }
                }
                return None;
            },
        };
        i += 1;
    }
    assert(body.take(body.len() as int) =~= body);
    Some(value)
}

/// Whether the character `c` occurs nowhere in `s`.
pub open spec fn free_of(s: Seq<char>, c: char) -> bool {
    forall|i: int| 0 <= i < s.len() ==> s[i] != c
}

/// Joining peels off on the left as it does on the right.
pub proof fn lemma_join_first(parts: Seq<Seq<char>>, d: Seq<char>)
    requires
        parts.len() >= 2,
    ensures
        join(parts, d) == parts[0] + d + join(parts.drop_first(), d),
    decreases parts.len(),
{
    if parts.len() == 2 {
        assert(parts.drop_last() =~= seq![parts[0]]);
        assert(parts.drop_first() =~= seq![parts[1]]);
        assert(join(parts.drop_last(), d) == parts[0]);
        assert(join(parts.drop_first(), d) == parts[1]);
    } else {
        let front = parts.drop_last();
        lemma_join_first(front, d);
        assert(front.drop_first() =~= parts.drop_first().drop_last());
        assert(front[0] == parts[0]);
        assert(parts.drop_first().last() == parts.last());
        assert((parts[0] + d + join(front.drop_first(), d)) + d + parts.last() =~= parts[0] + d + (
        join(front.drop_first(), d) + d + parts.last()));
    }
}

/// A text without the character `c` is one piece when split on `c`.
pub proof fn lemma_split_free(s: Seq<char>, c: char)
    requires
        free_of(s, c),
    ensures
        split(s, seq![c]) == seq![s],
{
    let d = seq![c];
    assert forall|j: int| 0 <= j implies !occurs_at(s, d, j) by {
        if j + 1 <= s.len() {
            assert(s.subrange(j, j + 1)[0] == s[j]);
        }
    }
    lemma_no_occurrence_anywhere(s, d, 0);
}

/// Where `d` stands nowhere in `s`, no search finds it.
pub proof fn lemma_no_occurrence_anywhere(s: Seq<char>, d: Seq<char>, from: int)
    requires
        forall|j: int| 0 <= j ==> !occurs_at(s, d, j),
    ensures
        first_occurrence(s, d, from) is None,
    decreases s.len() + 1 - from,
{
    if !(from < 0 || from + d.len() > s.len()) {
        lemma_no_occurrence_anywhere(s, d, from + 1);
    }
}

/// Splitting what was joined with a one-character delimiter gives the pieces
/// back, where no piece holds that character.
pub proof fn lemma_split_join(parts: Seq<Seq<char>>, c: char)
    requires
        parts.len() > 0,
        forall|i: int| 0 <= i < parts.len() ==> free_of(#[trigger] parts[i], c),
    ensures
        split(join(parts, seq![c]), seq![c]) == parts,
    decreases parts.len(),
{
    let d = seq![c];
    if parts.len() == 1 {
        lemma_split_free(parts[0], c);
        assert(seq![parts[0]] =~= parts);
    } else {
        let rest = parts.drop_first();
        let tail = join(rest, d);
        let whole = join(parts, d);
        lemma_join_first(parts, d);
        assert forall|i: int| 0 <= i < rest.len() implies free_of(#[trigger] rest[i], c) by {
            assert(rest[i] == parts[i + 1]);
        }
        lemma_split_join(rest, c);
        let head = parts[0];
        let at = head.len() as int;
        assert(whole == head + d + tail);
        assert forall|j: int| 0 <= j < at implies !occurs_at(whole, d, j) by {
            if j + 1 <= whole.len() {
                assert(whole.subrange(j, j + 1)[0] == whole[j]);
                assert(whole[j] == head[j]);
            }
        }
        assert(occurs_at(whole, d, at)) by {
            assert(whole.subrange(at, at + 1) =~= d);
        }
        lemma_first_occurrence_skip(whole, d, at);
        assert(first_occurrence(whole, d, 0) == Some(at));
        assert(whole.subrange(0, at) =~= head);
        assert(whole.subrange(at + 1, whole.len() as int) =~= tail);
        assert(seq![head] + rest =~= parts);
    }
}

/// The first place at which a text occurs is a place at which it occurs.
pub proof fn lemma_first_occurrence_occurs(s: Seq<char>, d: Seq<char>, from: int)
    ensures
        first_occurrence(s, d, from) matches Some(at) ==> from <= at && occurs_at(s, d, at),
    decreases s.len() + 1 - from,
{
    if !(from < 0 || from + d.len() > s.len()) && !occurs_at(s, d, from) {
        lemma_first_occurrence_occurs(s, d, from + 1);
    }
}

/// Before the first place at which a text occurs, it does not occur.
pub proof fn lemma_first_occurrence_first(s: Seq<char>, d: Seq<char>, from: int)
    ensures
        first_occurrence(s, d, from) matches Some(at) ==> forall|j: int|
            from <= j < at ==> !occurs_at(s, d, j),
    decreases s.len() + 1 - from,
{
    if !(from < 0 || from + d.len() > s.len()) && !occurs_at(s, d, from) {
        lemma_first_occurrence_first(s, d, from + 1);
    }
}

/// Where a text occurs at or after the start of a search, the search finds a place.
pub proof fn lemma_occurrence_found(s: Seq<char>, d: Seq<char>, from: int, at: int)
    requires
        0 <= from <= at,
        occurs_at(s, d, at),
    ensures
        first_occurrence(s, d, from) is Some,
    decreases at - from,
{
    if from < at {
        lemma_occurrence_found(s, d, from + 1, at);
    }
}

/// The pieces of a text that was split on a character hold that character nowhere.
pub proof fn lemma_pieces_free(s: Seq<char>, c: char)
    ensures
        forall|i: int|
            0 <= i < split(s, seq![c]).len() ==> free_of(#[trigger] split(s, seq![c])[i], c),
    decreases s.len(),
{
    let d = seq![c];
    let pieces = split(s, d);
    match first_occurrence(s, d, 0) {
        Some(at) => {
            lemma_first_occurrence_occurs(s, d, 0);
            lemma_first_occurrence_first(s, d, 0);
            let head = s.subrange(0, at);
            let rest = s.subrange(at + 1, s.len() as int);
            lemma_pieces_free(rest, c);
            assert(pieces == seq![head] + split(rest, d));
            assert forall|j: int| 0 <= j < head.len() implies head[j] != c by {
                if head[j] == c {
                    assert(s.subrange(j, j + 1) =~= d);
                    assert(occurs_at(s, d, j));
                }
            }
            assert forall|i: int| 0 <= i < pieces.len() implies free_of(#[trigger] pieces[i], c) by {
                if i > 0 {
                    assert(pieces[i] == split(rest, d)[i - 1]);
                }
            }
        },
        None => {
            assert forall|j: int| 0 <= j < s.len() implies s[j] != c by {
                if s[j] == c {
                    assert(s.subrange(j, j + 1) =~= d);
                    lemma_occurrence_found(s, d, 0, j);
                }
            }
        },
    }
}

/// The first pieces of a text, joined again, split into those pieces.
pub proof fn lemma_split_path(s: Seq<char>, d: Seq<char>, count: int)
    requires
        d.len() > 0,
        1 <= count <= split(s, d).len(),
    ensures
        split(join(split(s, d).take(count), d), d) == split(s, d).take(count),
    decreases s.len(),
{
    let pieces = split(s, d);
    match first_occurrence(s, d, 0) {
        Some(at) => {
            lemma_first_occurrence_occurs(s, d, 0);
            lemma_first_occurrence_first(s, d, 0);
            let head = s.subrange(0, at);
            let rest = s.subrange(at + d.len(), s.len() as int);
            assert(pieces == seq![head] + split(rest, d));
            assert forall|j: int| 0 <= j && j + d.len() <= at implies !occurs_at(head, d, j) by {
                assert(!occurs_at(s, d, j));
                assert(head.subrange(j, j + d.len()) =~= s.subrange(j, j + d.len()));
            }
            if count == 1 {
                assert(pieces.take(1) =~= seq![head]);
                lemma_no_occurrence_anywhere(head, d, 0);
            } else {
                let those = split(rest, d).take(count - 1);
                let tail = join(those, d);
                let whole = join(pieces.take(count), d);
                lemma_split_path(rest, d, count - 1);
                lemma_join_first(pieces.take(count), d);
                assert(pieces.take(count).drop_first() =~= those);
                assert(whole == head + d + tail);
                assert forall|j: int| 0 <= j < at implies !occurs_at(whole, d, j) by {
                    assert(!occurs_at(s, d, j));
                    if j + d.len() <= whole.len() {
                        assert(whole.subrange(j, j + d.len()) =~= s.subrange(j, j + d.len()));
                    }
                }
                assert(occurs_at(whole, d, at)) by {
                    assert(whole.subrange(at, at + d.len()) =~= d);
                }
                lemma_first_occurrence_skip(whole, d, at);
                assert(first_occurrence(whole, d, 0) == Some(at));
                assert(whole.subrange(0, at) =~= head);
                assert(whole.subrange(at + d.len(), whole.len() as int) =~= tail);
                assert(seq![head] + those =~= pieces.take(count));
            }
        },
        None => {
            assert(pieces.take(1) =~= seq![s]);
        },
    }
}

/// Joining the first pieces of a text that was cut around every character
/// gives the first characters of the text.
proof fn lemma_join_cut(s: Seq<char>, count: int)
    requires
        1 <= count <= s.len() + 1,
    ensures
        join(split(s, Seq::empty()).take(count), Seq::empty()) == s.take(count - 1),
    decreases count,
{
    let pieces = split(s, Seq::empty());
    if count == 1 {
        assert(pieces.take(1)[0] == Seq::<char>::empty());
        assert(s.take(0) =~= Seq::<char>::empty());
    } else {
        lemma_join_cut(s, count - 1);
        assert(pieces.take(count).drop_last() =~= pieces.take(count - 1));
        assert(pieces.take(count).last() == seq![s[count - 2]]);
        assert(s.take(count - 2) + Seq::<char>::empty() + seq![s[count - 2]] =~= s.take(count - 1));
    }
}

/// Joining what was split gives the text back, and splitting gives a piece at least.
pub proof fn lemma_join_split(s: Seq<char>, d: Seq<char>)
    ensures
        split(s, d).len() >= 1,
        join(split(s, d), d) == s,
    decreases s.len(),
{
    if d.len() == 0 {
        let pieces = split(s, d);
        assert(d =~= Seq::<char>::empty());
        lemma_join_cut(s, s.len() as int + 1);
        assert(pieces.drop_last() =~= pieces.take(s.len() as int + 1));
        assert(pieces.last() == Seq::<char>::empty());
        assert(s.take(s.len() as int) + d + Seq::<char>::empty() =~= s);
    } else {
        lemma_first_occurrence_occurs(s, d, 0);
        match first_occurrence(s, d, 0) {
            Some(at) => {
                let head = s.subrange(0, at);
                let rest = s.subrange(at + d.len(), s.len() as int);
                lemma_join_split(rest, d);
                let pieces = split(s, d);
                assert(pieces == seq![head] + split(rest, d));
                assert(pieces.drop_first() =~= split(rest, d));
                lemma_join_first(pieces, d);
                assert(s.subrange(at, at + d.len()) == d);
                assert(head + d + rest =~= s);
            },
            None => {
                assert(split(s, d) == seq![s]);
            },
        }
    }
}

/// Splits `s` on `d`.
pub fn split_text(s: &str, d: &str) -> (parts: Vec<String>)
    ensures
        texts(parts@) == split(s@, d@),
{
    let pieces = split_chars(&to_chars(s), &to_chars(d));
    let mut parts: Vec<String> = Vec::new();
    let mut i: usize = 0;
    while i < pieces.len()
        invariant
            0 <= i <= pieces.len(),
            parts@.len() == i,
            forall|j: int| 0 <= j < i ==> (#[trigger] parts@[j])@ == pieces@[j]@,
        decreases pieces.len() - i,
    {
        parts.push(from_chars(&pieces[i]));
        i += 1;
    }
    assert(texts(parts@) =~= rows(pieces@));
    parts
}

/// Puts the first `count` of `parts` together with `d` between each two of
/// them; all of them where there are fewer.
pub fn join_text(parts: &Vec<String>, count: usize, d: &str) -> (joined: String)
    ensures
        joined@ == join(
            texts(parts@).take(
                if count <= parts@.len() {
                    count as int
                } else {
                    parts@.len() as int
                },
            ),
            d@,
        ),
{
    let count = if count <= parts.len() {
        count
    } else {
        parts.len()
    };
    let mut joined = String::new();
    let mut i: usize = 0;
    assert(texts(parts@).take(0) =~= Seq::<Seq<char>>::empty());
    while i < count
        invariant
            0 <= i <= count <= parts.len(),
            joined@ == join(texts(parts@).take(i as int), d@),
        decreases count - i,
    {
        let ghost prefix = texts(parts@).take(i as int);
        let ghost next = texts(parts@).take(i + 1);
        assert(next.drop_last() =~= prefix);
        assert(next.last() == parts@[i as int]@);
        if i > 0 {
            joined.append(d);
        }
        joined.append(parts[i].as_str());
        assert(joined@ =~= join(next, d@));
        i += 1;
    }
    joined
}

/// Whether `s` begins with `prefix`.
pub fn has_prefix(s: &str, prefix: &str) -> (begins: bool)
    ensures
        begins == begins_with(s@, prefix@),
{
    let chars = to_chars(s);
    let wanted = to_chars(prefix);
    if wanted.len() > chars.len() {
        return false;
    }
    matches_at(&chars, &wanted, 0)
}

/// Whether two texts are the same.
pub fn same_text(a: &str, b: &str) -> (same: bool)
    ensures
        same == (a@ == b@),
{
    a.to_owned() == b.to_owned()
}

/// `n` written in decimal.
pub fn decimal_text(n: u64) -> (text: String)
    ensures
        text@ == decimal(n as nat),
{
    from_chars(&decimal_chars(n))
}

} // verus!
