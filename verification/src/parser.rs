//! From a message as it came over the wire to what the library knows of it.
//!
//! The tokenizing is done by outside crates: `mailparse` splits a message
//! into header fields and parts, `email` reads address lists, `chrono` reads
//! dates, `ammonia` cleans text and html. What is done with their results is
//! decided here.

use crate::address::{address_views, addresses_in, list_address, Address, AddressView};
use crate::attachment::opt_text;
use crate::builder::{empty_builder, BuilderView, MessageBuilder};
use crate::content::ContentView;
use crate::error::{Error, ErrorKind};
use crate::headers::{field_views, Headers};
use crate::pairs::{extended, value_of, Pairs};
use crate::text::{ascii_lowercase, begins_with, has_prefix, same_text, trimmed};
use vstd::prelude::*;

verus! {

/// `mailparse::MailParseError`: why a message did not parse.
#[verifier::external_type_specification]
#[verifier::external_body]
pub struct ExMailParseError(mailparse::MailParseError);

/// `chrono::ParseError`: why a date did not parse.
#[verifier::external_type_specification]
#[verifier::external_body]
pub struct ExChronoParseError(chrono::ParseError);

/// What a [`MailPart`] holds.
pub struct MailPartView {
    pub headers: Pairs<Seq<char>>,
    pub body: Option<Seq<char>>,
}

/// One part of a parsed message: its header fields in the order in which
/// they stand, and its decoded body if it could be decoded.
#[derive(Debug)]
pub struct MailPart {
    pub headers: Vec<(String, String)>,
    pub body: Option<String>,
}

impl View for MailPart {
    type V = MailPartView;

    open spec fn view(&self) -> MailPartView {
        MailPartView { headers: field_views(self.headers@), body: opt_text(self.body) }
    }
}

/// What a [`ParsedMail`] holds.
pub struct ParsedMailView {
    pub headers: Pairs<Seq<char>>,
    pub parts: Seq<MailPartView>,
}

/// A parsed message: the header fields of the message in the order in which
/// they stand, and its parts in depth-first order, the message itself first.
#[derive(Debug)]
pub struct ParsedMail {
    pub headers: Vec<(String, String)>,
    pub parts: Vec<MailPart>,
}

/// The views of a sequence of parts.
pub open spec fn part_views(parts: Seq<MailPart>) -> Seq<MailPartView> {
    Seq::new(parts.len(), |i: int| parts[i]@)
}

impl View for ParsedMail {
    type V = ParsedMailView;

    open spec fn view(&self) -> ParsedMailView {
        ParsedMailView { headers: field_views(self.headers@), parts: part_views(self.parts@) }
    }
}

/// What `mailparse` reads from the bytes of a message, or nothing where they
/// do not parse.
pub uninterp spec fn parsed_mail(bytes: Seq<u8>) -> Option<ParsedMailView>;

/// What `mailparse` reads from the bytes of a header block, or nothing where
/// they do not parse.
pub uninterp spec fn parsed_headers(bytes: Seq<u8>) -> Option<Pairs<Seq<char>>>;

/// The seconds since the epoch of a date as RFC 2822 writes it, as `chrono`
/// reads it, or nothing where it does not parse.
pub uninterp spec fn rfc2822_timestamp(date: Seq<char>) -> Option<i64>;

/// What stands for a character in cleaned text: an entity for each of the
/// fourteen characters that mean something in html, the character itself for
/// every other.
pub open spec fn escaped(c: char) -> Seq<char> {
    if c == '<' {
        "&lt;"@
    } else if c == '>' {
        "&gt;"@
    } else if c == '"' {
        "&quot;"@
    } else if c == '\'' {
        "&apos;"@
    } else if c == '`' {
        "&grave;"@
    } else if c == '/' {
        "&#47;"@
    } else if c == '&' {
        "&amp;"@
    } else if c == '=' {
        "&#61;"@
    } else if c == ' ' {
        "&#32;"@
    } else if c == '\t' {
        "&#9;"@
    } else if c == '\n' {
        "&#10;"@
    } else if c == '\x0c' {
        "&#12;"@
    } else if c == '\r' {
        "&#13;"@
    } else if c == '\0' {
        "&#65533;"@
    } else {
        seq![c]
    }
}

/// A text cleaned so that it can stand in html: each character is escaped.
pub open spec fn clean_text(dirty: Seq<char>) -> Seq<char>
    decreases dirty.len(),
{
    if dirty.len() == 0 {
        Seq::empty()
    } else {
        clean_text(dirty.drop_last()) + escaped(dirty.last())
    }
}

/// What `ammonia` makes of html, given the tags and the attributes that are
/// allowed besides those that it allows by itself.
pub uninterp spec fn clean_html(dirty: Seq<char>, tags: Seq<Seq<char>>, attributes: Seq<Seq<char>>) -> Seq<
    char,
>;

/// Parses a message with `mailparse::parse_mail` and hands out, as plain
/// values, the header fields of the message (`get_headers`, `get_key`,
/// `get_value`) and, for each part that `parts` walks, its header fields and
/// its body (`get_body`), which is `None` where it could not be decoded.
#[verifier::external_body]
fn parse_mail(bytes: &Vec<u8>) -> (parsed: Result<ParsedMail, mailparse::MailParseError>)
    ensures
        match parsed {
            Ok(mail) => parsed_mail(bytes@) == Some(mail@),
            Err(_) => parsed_mail(bytes@) is None,
        },
{
    let parsed = mailparse::parse_mail(bytes)?;
    let fields = |p: &mailparse::ParsedMail| -> Vec<(String, String)> {
        p.get_headers().into_iter().map(|h| (h.get_key(), h.get_value())).collect()
    };
    let parts = parsed.parts().map(|p| MailPart { headers: fields(p), body: p.get_body().ok() });
    Ok(ParsedMail { headers: fields(&parsed), parts: parts.collect() })
}

/// Parses a header block with `mailparse::parse_headers` and hands out the
/// fields as plain values (`get_key`, `get_value`).
#[verifier::external_body]
fn parse_header_fields(bytes: &Vec<u8>) -> (parsed: Result<
    Vec<(String, String)>,
    mailparse::MailParseError,
>)
    ensures
        match parsed {
            Ok(fields) => parsed_headers(bytes@) == Some(field_views(fields@)),
            Err(_) => parsed_headers(bytes@) is None,
        },
{
    let (headers, _) = mailparse::parse_headers(bytes)?;
    Ok(headers.into_iter().map(|h| (h.get_key(), h.get_value())).collect())
}

/// Reads a date with `chrono::DateTime::parse_from_rfc2822` and gives its
/// `timestamp`.
#[verifier::external_body]
fn parse_rfc2822(date: &str) -> (seconds: Result<i64, chrono::ParseError>)
    ensures
        match seconds {
            Ok(t) => rfc2822_timestamp(date@) == Some(t),
            Err(_) => rfc2822_timestamp(date@) is None,
        },
{
    Ok(chrono::DateTime::parse_from_rfc2822(date)?.timestamp())
}

/// Cleans a text with `ammonia::clean_text`, which replaces each of fourteen
/// characters by an entity and passes every other character through.
#[verifier::external_body]
fn ammonia_clean_text(dirty: &str) -> (clean: String)
    ensures
        clean@ == clean_text(dirty@),
{
    ammonia::clean_text(dirty)
}

/// Cleans html with an `ammonia::Builder` to which the given tags
/// (`add_tags`) and attributes (`add_generic_attributes`) were added. The
/// builder refuses to clean, loudly, where `script` or `style` is among the
/// tags or `rel` among the attributes, so those are left out.
#[verifier::external_body]
fn ammonia_clean_html(dirty: &str, tags: &Vec<&'static str>, attributes: &Vec<&'static str>) -> (clean:
    String)
    requires
        cleanable_with(crate::query::slices(tags@), crate::query::slices(attributes@)),
    ensures
        clean@ == clean_html(dirty@, crate::query::slices(tags@), crate::query::slices(attributes@)),
{
    let mut builder = ammonia::Builder::new();
    builder.add_tags(tags.iter().copied()).add_generic_attributes(attributes.iter().copied());
    builder.clean(dirty).to_string()
}

/// The html tags that are allowed in the html of a message besides those
/// that are allowed anyway.
pub open spec fn allowed_html_tags() -> Seq<Seq<char>> {
    seq![
        "address"@, "article"@, "aside"@, "footer"@, "header"@, "h1"@, "h2"@, "h3"@, "h4"@, "h5"@,
        "h6"@, "hgroup"@, "main"@, "nav"@, "section"@, "blockquote"@, "dd"@, "div"@, "dl"@, "dt"@,
        "figcaption"@, "figure"@, "hr"@, "li"@, "main"@, "ol"@, "p"@, "pre"@, "ul"@, "a"@, "abbr"@,
        "b"@, "bdi"@, "bdo"@, "br"@, "cite"@, "code"@, "data"@, "dfn"@, "em"@, "i"@, "kbd"@,
        "mark"@, "q"@, "rb"@, "rp"@, "rt"@, "rtc"@, "ruby"@, "s"@, "samp"@, "small"@, "span"@,
        "strong"@, "sub"@, "sup"@, "time"@, "u"@, "var"@, "wbr"@, "caption"@, "col"@,
        "colgroup"@, "table"@, "tbody"@, "td"@, "tfoot"@, "th"@, "thead"@, "tr"@, "center"@,
    ]
}

/// The attributes that are allowed on every tag in the html of a message.
pub open spec fn generic_html_attributes() -> Seq<Seq<char>> {
    seq![
        "style"@, "width"@, "height"@, "border"@, "cellspacing"@, "cellpadding"@, "colspan"@,
        "id"@, "target"@, "data-x-style-url"@, "class"@, "align"@,
    ]
}

/// Whether none of the names is `name`.
pub open spec fn holds_none(names: Seq<Seq<char>>, name: Seq<char>) -> bool {
    forall|i: int| 0 <= i < names.len() ==> #[trigger] names[i] != name
}

/// Whether `ammonia` takes the tags and the attributes besides its own: it
/// cleans the content of `script` and `style` away, so neither may be an
/// allowed tag, and it sets `rel` on links itself, so `rel` may not be an
/// allowed attribute.
pub open spec fn cleanable_with(tags: Seq<Seq<char>>, attributes: Seq<Seq<char>>) -> bool {
    &&& holds_none(tags, "script"@)
    &&& holds_none(tags, "style"@)
    &&& holds_none(attributes, "rel"@)
}

/// The tags and attributes that are allowed in the html of a message are
/// such that `ammonia` takes them.
pub proof fn lemma_allowed_lists_cleanable()
    ensures
        cleanable_with(allowed_html_tags(), generic_html_attributes()),
{
    reveal_strlit("address");
    reveal_strlit("article");
    reveal_strlit("aside");
    reveal_strlit("footer");
    reveal_strlit("header");
    reveal_strlit("h1");
    reveal_strlit("h2");
    reveal_strlit("h3");
    reveal_strlit("h4");
    reveal_strlit("h5");
    reveal_strlit("h6");
    reveal_strlit("hgroup");
    reveal_strlit("main");
    reveal_strlit("nav");
    reveal_strlit("section");
    reveal_strlit("blockquote");
    reveal_strlit("dd");
    reveal_strlit("div");
    reveal_strlit("dl");
    reveal_strlit("dt");
    reveal_strlit("figcaption");
    reveal_strlit("figure");
    reveal_strlit("hr");
    reveal_strlit("li");
    reveal_strlit("ol");
    reveal_strlit("p");
    reveal_strlit("pre");
    reveal_strlit("ul");
    reveal_strlit("a");
    reveal_strlit("abbr");
    reveal_strlit("b");
    reveal_strlit("bdi");
    reveal_strlit("bdo");
    reveal_strlit("br");
    reveal_strlit("cite");
    reveal_strlit("code");
    reveal_strlit("data");
    reveal_strlit("dfn");
    reveal_strlit("em");
    reveal_strlit("i");
    reveal_strlit("kbd");
    reveal_strlit("mark");
    reveal_strlit("q");
    reveal_strlit("rb");
    reveal_strlit("rp");
    reveal_strlit("rt");
    reveal_strlit("rtc");
    reveal_strlit("ruby");
    reveal_strlit("s");
    reveal_strlit("samp");
    reveal_strlit("small");
    reveal_strlit("span");
    reveal_strlit("strong");
    reveal_strlit("sub");
    reveal_strlit("sup");
    reveal_strlit("time");
    reveal_strlit("u");
    reveal_strlit("var");
    reveal_strlit("wbr");
    reveal_strlit("caption");
    reveal_strlit("col");
    reveal_strlit("colgroup");
    reveal_strlit("table");
    reveal_strlit("tbody");
    reveal_strlit("td");
    reveal_strlit("tfoot");
    reveal_strlit("th");
    reveal_strlit("thead");
    reveal_strlit("tr");
    reveal_strlit("center");
    reveal_strlit("style");
    reveal_strlit("width");
    reveal_strlit("height");
    reveal_strlit("border");
    reveal_strlit("cellspacing");
    reveal_strlit("cellpadding");
    reveal_strlit("colspan");
    reveal_strlit("id");
    reveal_strlit("target");
    reveal_strlit("data-x-style-url");
    reveal_strlit("class");
    reveal_strlit("align");
    reveal_strlit("rel");
    reveal_strlit("script");
    let tags = allowed_html_tags();
    let attributes = generic_html_attributes();
    assert forall|i: int| 0 <= i < tags.len() implies #[trigger] tags[i] != "script"@ by {
        assert(tags[i].len() != 6 || tags[i][0] != 's' || tags[i][1] != 'c');
    }
    assert forall|i: int| 0 <= i < tags.len() implies #[trigger] tags[i] != "style"@ by {
        assert(tags[i].len() != 5 || tags[i][0] != 's' || tags[i][1] != 't');
    }
    assert forall|i: int| 0 <= i < attributes.len() implies #[trigger] attributes[i] != "rel"@ by {
        assert(attributes[i].len() != 3);
    }
}

/// Cleans the html of a message: only harmless tags and attributes stay.
pub fn sanitize_html(dirty: &str) -> (clean: String)
    ensures
        clean@ == clean_html(dirty@, allowed_html_tags(), generic_html_attributes()),
{
    let tags: Vec<&'static str> = vec![
        "address", "article", "aside", "footer", "header", "h1", "h2", "h3", "h4", "h5", "h6",
        "hgroup", "main", "nav", "section", "blockquote", "dd", "div", "dl", "dt", "figcaption",
        "figure", "hr", "li", "main", "ol", "p", "pre", "ul", "a", "abbr", "b", "bdi", "bdo", "br",
        "cite", "code", "data", "dfn", "em", "i", "kbd", "mark", "q", "rb", "rp", "rt", "rtc",
        "ruby", "s", "samp", "small", "span", "strong", "sub", "sup", "time", "u", "var", "wbr",
        "caption", "col", "colgroup", "table", "tbody", "td", "tfoot", "th", "thead", "tr",
        "center",
    ];
    let attributes: Vec<&'static str> = vec![
        "style", "width", "height", "border", "cellspacing", "cellpadding", "colspan", "id",
        "target", "data-x-style-url", "class", "align",
    ];
    assert(crate::query::slices(tags@) =~= allowed_html_tags());
    assert(crate::query::slices(attributes@) =~= generic_html_attributes());
    proof {
        lemma_allowed_lists_cleanable();
    }
    ammonia_clean_html(dirty, &tags, &attributes)
}

/// Cleans the plain text of a message, so that it can stand in html.
pub fn sanitize_text(dirty: &str) -> (clean: String)
    ensures
        clean@ == clean_text(dirty@),
{
    ammonia_clean_text(dirty)
}

/// The header fields by name: of two fields with one name the later stays.
pub open spec fn by_name(fields: Pairs<Seq<char>>) -> Pairs<Seq<char>> {
    extended(Pairs::<Seq<char>>::empty(), fields, fields.len() as int)
}

/// Collects header fields by name.
pub fn collect_headers(fields: &Vec<(String, String)>) -> (headers: Headers)
    ensures
        headers@ == by_name(field_views(fields@)),
{
    let mut headers = Headers::new();
    let mut i: usize = 0;
    while i < fields.len()
        invariant
            0 <= i <= fields.len(),
            headers@ == extended(Pairs::<Seq<char>>::empty(), field_views(fields@), i as int),
        decreases fields.len() - i,
    {
        assert(field_views(fields@)[i as int] == (fields@[i as int].0@, fields@[i as int].1@));
        headers.insert(fields[i].0.clone(), fields[i].1.clone());
        i += 1;
    }
    headers
}

/// The header fields of a header block, by name.
pub fn parse_headers(response: &Vec<u8>) -> (headers: Result<Headers, Error>)
    ensures
        match headers {
            Ok(h) => parsed_headers(response@) matches Some(fields) && h@ == by_name(fields),
            Err(e) => parsed_headers(response@) is None && e@.kind == ErrorKind::ParseMessage,
        },
{
    match parse_header_fields(response) {
        Ok(fields) => Ok(collect_headers(&fields)),
        Err(_) => Err(Error::new(ErrorKind::ParseMessage, "Failed to parse mail message".to_owned())),
    }
}

/// What is known of the date of a message: nothing without a `Date` field,
/// the seconds since the epoch where the field parses, a failure where it
/// does not.
pub open spec fn sent_of(headers: Pairs<Seq<char>>) -> Result<Option<i64>, ErrorKind> {
    match value_of(headers, "Date"@) {
        Some(date) => match rfc2822_timestamp(trimmed(date)) {
            Some(seconds) => Ok(Some(seconds)),
            None => Err(ErrorKind::ParseTime),
        },
        None => Ok(None),
    }
}

/// The addresses of the field `name`: none without the field, a failure
/// where the field does not parse.
pub open spec fn addresses_of(headers: Pairs<Seq<char>>, name: Seq<char>) -> Result<
    Seq<AddressView>,
    ErrorKind,
> {
    match value_of(headers, name) {
        Some(value) => match addresses_in(value) {
            Some(list) => Ok(list),
            None => Err(ErrorKind::ParseEmailAddress),
        },
        None => Ok(Seq::empty()),
    }
}

/// The address that stands for a list of addresses, if the list has any.
pub open spec fn opt_list_address(list: Seq<AddressView>) -> Option<AddressView> {
    if list.len() > 0 {
        Some(list_address(list))
    } else {
        None
    }
}

/// The content so far, after one header field of a part was looked at: a
/// field `content-type` that begins with `text/plain` makes the cleaned body
/// of the part the text, one that begins with `text/html` makes it the html.
/// The part of such a field must have a body.
pub open spec fn content_after_field(
    content: ContentView,
    field: (Seq<char>, Seq<char>),
    body: Option<Seq<char>>,
) -> Result<ContentView, ErrorKind> {
    if ascii_lowercase(trimmed(field.0)) == "content-type"@ {
        match body {
            Some(body) => {
                let value = ascii_lowercase(trimmed(field.1));
                if begins_with(value, "text/plain"@) {
                    Ok(ContentView { text: Some(clean_text(body)), ..content })
                } else if begins_with(value, "text/html"@) {
                    Ok(
                        ContentView {
                            html: Some(
                                clean_html(body, allowed_html_tags(), generic_html_attributes()),
                            ),
                            ..content
                        },
                    )
                } else {
                    Ok(content)
                }
            },
            None => Err(ErrorKind::ParseMessage),
        }
    } else {
        Ok(content)
    }
}

/// The content after the first `count` header fields of a part were looked at.
pub open spec fn content_after_fields(content: ContentView, part: MailPartView, count: int) -> Result<
    ContentView,
    ErrorKind,
>
    decreases count,
{
    if count <= 0 || count > part.headers.len() {
        Ok(content)
    } else {
        match content_after_fields(content, part, count - 1) {
            Ok(before) => content_after_field(before, part.headers[count - 1], part.body),
            Err(kind) => Err(kind),
        }
    }
}

/// The content after the first `count` parts were looked at.
pub open spec fn content_after_parts(parts: Seq<MailPartView>, count: int) -> Result<
    ContentView,
    ErrorKind,
>
    decreases count,
{
    if count <= 0 || count > parts.len() {
        Ok(ContentView { text: None, html: None })
    } else {
        match content_after_parts(parts, count - 1) {
            Ok(before) => content_after_fields(
                before,
                parts[count - 1],
                parts[count - 1].headers.len() as int,
            ),
            Err(kind) => Err(kind),
        }
    }
}

/// What a parsed message says of itself, or the first failure on the way:
/// the date is read first, then the addresses of `From`, `To`, `BCC` and
/// `CC`, then the parts.
pub open spec fn builder_of(mail: ParsedMailView) -> Result<BuilderView, ErrorKind> {
    let headers = by_name(mail.headers);
    match sent_of(headers) {
        Err(kind) => Err(kind),
        Ok(sent) => match addresses_of(headers, "From"@) {
            Err(kind) => Err(kind),
            Ok(from) => match addresses_of(headers, "To"@) {
                Err(kind) => Err(kind),
                Ok(to) => match addresses_of(headers, "BCC"@) {
                    Err(kind) => Err(kind),
                    Ok(bcc) => match addresses_of(headers, "CC"@) {
                        Err(kind) => Err(kind),
                        Ok(cc) => match content_after_parts(mail.parts, mail.parts.len() as int) {
                            Err(kind) => Err(kind),
                            Ok(content) => Ok(
                                BuilderView {
                                    from: opt_list_address(from),
                                    to: opt_list_address(to),
                                    cc: opt_list_address(cc),
                                    bcc: opt_list_address(bcc),
                                    sent,
                                    subject: value_of(headers, "Subject"@),
                                    headers: Some(headers),
                                    content,
                                    ..empty_builder()
                                },
                            ),
                        },
                    },
                },
            },
        },
    }
}

fn read_sent(headers: &Headers) -> (sent: Result<Option<i64>, Error>)
    ensures
        match sent {
            Ok(s) => sent_of(headers@) == Ok::<Option<i64>, ErrorKind>(s),
            Err(e) => sent_of(headers@) == Err::<Option<i64>, ErrorKind>(e@.kind),
        },
{
    match headers.get("Date") {
        Some(date) => match parse_rfc2822(date.as_str().trim()) {
            Ok(seconds) => Ok(Some(seconds)),
            Err(_) => Err(Error::new(ErrorKind::ParseTime, "Failed to parse date time".to_owned())),
        },
        None => Ok(None),
    }
}

fn read_addresses(headers: &Headers, name: &str) -> (list: Result<Vec<Address>, Error>)
    ensures
        match list {
            Ok(l) => addresses_of(headers@, name@) == Ok::<Seq<AddressView>, ErrorKind>(
                address_views(l@),
            ),
            Err(e) => addresses_of(headers@, name@) == Err::<Seq<AddressView>, ErrorKind>(e@.kind),
        },
{
    match headers.get(name) {
        Some(value) => Address::from_header(value.as_str()),
        None => {
            let list: Vec<Address> = Vec::new();
            assert(address_views(list@) =~= Seq::<AddressView>::empty());
            Ok(list)
        },
    }
}

fn read_part(text: &mut Option<String>, html: &mut Option<String>, part: &MailPart) -> (read: Result<
    (),
    Error,
>)
    ensures
        match read {
            Ok(_) => content_after_fields(
                ContentView { text: opt_text(*old(text)), html: opt_text(*old(html)) },
                part@,
                part@.headers.len() as int,
            ) == Ok::<ContentView, ErrorKind>(
                ContentView { text: opt_text(*final(text)), html: opt_text(*final(html)) },
            ),
            Err(e) => content_after_fields(
                ContentView { text: opt_text(*old(text)), html: opt_text(*old(html)) },
                part@,
                part@.headers.len() as int,
            ) == Err::<ContentView, ErrorKind>(e@.kind),
        },
{
    let ghost start = ContentView { text: opt_text(*text), html: opt_text(*html) };
    let mut i: usize = 0;
    while i < part.headers.len()
        invariant
            0 <= i <= part.headers.len(),
            start == (ContentView { text: opt_text(*old(text)), html: opt_text(*old(html)) }),
            content_after_fields(start, part@, i as int) == Ok::<ContentView, ErrorKind>(
                ContentView { text: opt_text(*text), html: opt_text(*html) },
            ),
        decreases part.headers.len() - i,
    {
        assert(part@.headers[i as int] == (part.headers@[i as int].0@, part.headers@[i as int].1@));
        let key = part.headers[i].0.as_str().trim().to_ascii_lowercase();
        if same_text(key.as_str(), "content-type") {
            let value = part.headers[i].1.as_str().trim().to_ascii_lowercase();
            match &part.body {
                Some(body) => {
                    if has_prefix(value.as_str(), "text/plain") {
                        *text = Some(sanitize_text(body.as_str()));
                    } else if has_prefix(value.as_str(), "text/html") {
                        *html = Some(sanitize_html(body.as_str()));
                    }
                },
                None => {
                    proof {
                        assert(content_after_fields(start, part@, i + 1) == Err::<
                            ContentView,
                            ErrorKind,
                        >(ErrorKind::ParseMessage));
                        lemma_fields_failure_stays(start, part@, i + 1, part@.headers.len() as int);
                    }
                    return Err(
                        Error::new(ErrorKind::ParseMessage, "Failed to parse mail message".to_owned()),
                    );
                },
            }
        }
        i += 1;
    }
    Ok(())
}

fn read_parts(parts: &Vec<MailPart>) -> (content: Result<(Option<String>, Option<String>), Error>)
    ensures
        match content {
            Ok(c) => content_after_parts(part_views(parts@), parts@.len() as int) == Ok::<
                ContentView,
                ErrorKind,
            >(ContentView { text: opt_text(c.0), html: opt_text(c.1) }),
            Err(e) => content_after_parts(part_views(parts@), parts@.len() as int) == Err::<
                ContentView,
                ErrorKind,
            >(e@.kind),
        },
{
    let mut text: Option<String> = None;
    let mut html: Option<String> = None;
    let mut i: usize = 0;
    while i < parts.len()
        invariant
            0 <= i <= parts.len(),
            content_after_parts(part_views(parts@), i as int) == Ok::<ContentView, ErrorKind>(
                ContentView { text: opt_text(text), html: opt_text(html) },
            ),
        decreases parts.len() - i,
    {
        assert(part_views(parts@)[i as int] == parts@[i as int]@);
        match read_part(&mut text, &mut html, &parts[i]) {
            Ok(_) => {},
            Err(e) => {
                proof {
                    assert(content_after_parts(part_views(parts@), i + 1) == Err::<
                        ContentView,
                        ErrorKind,
                    >(e@.kind));
                    lemma_parts_failure_stays(part_views(parts@), i + 1, parts@.len() as int);
                }
                return Err(e);
            },
        }
        i += 1;
    }
    Ok((text, html))
}

/// A failure among the first header fields of a part is the failure of all of them.
pub proof fn lemma_fields_failure_stays(content: ContentView, part: MailPartView, count: int, more: int)
    requires
        0 <= count <= more <= part.headers.len(),
        content_after_fields(content, part, count) is Err,
    ensures
        content_after_fields(content, part, more) == content_after_fields(content, part, count),
    decreases more - count,
{
    if more > count {
        lemma_fields_failure_stays(content, part, count, more - 1);
    }
}

/// A failure among the first parts is the failure of all of them.
pub proof fn lemma_parts_failure_stays(parts: Seq<MailPartView>, count: int, more: int)
    requires
        0 <= count <= more <= parts.len(),
        content_after_parts(parts, count) is Err,
    ensures
        content_after_parts(parts, more) == content_after_parts(parts, count),
    decreases more - count,
{
    if more > count {
        lemma_parts_failure_stays(parts, count, more - 1);
    }
}

/// What a parsed message says of itself: its header fields by name, its
/// subject, its date, its addresses, and its content as cleaned text and html.
pub fn from_parsed_mail(parsed_mail: ParsedMail) -> (builder: Result<MessageBuilder, Error>)
    ensures
        match builder {
            Ok(b) => builder_of(parsed_mail@) == Ok::<BuilderView, ErrorKind>(b@),
            Err(e) => builder_of(parsed_mail@) == Err::<BuilderView, ErrorKind>(e@.kind),
        },
{
    let headers = collect_headers(&parsed_mail.headers);
    let subject: Option<String> = match headers.get("Subject") {
        Some(subject) => Some(subject.clone()),
        None => None,
    };
    let sent = match read_sent(&headers) {
        Ok(sent) => sent,
        Err(e) => {
            return Err(e);
        },
    };
    let from = match read_addresses(&headers, "From") {
        Ok(list) => list,
        Err(e) => {
            return Err(e);
        },
    };
    let to = match read_addresses(&headers, "To") {
        Ok(list) => list,
        Err(e) => {
            return Err(e);
        },
    };
    let bcc = match read_addresses(&headers, "BCC") {
        Ok(list) => list,
        Err(e) => {
            return Err(e);
        },
    };
    let cc = match read_addresses(&headers, "CC") {
        Ok(list) => list,
        Err(e) => {
            return Err(e);
        },
    };
    let mut message_builder = MessageBuilder::new().headers(headers);
    if from.len() > 0 {
        message_builder = message_builder.senders(Address::from_list(from));
    }
    if to.len() > 0 {
        message_builder = message_builder.recipients(Address::from_list(to));
    }
    if cc.len() > 0 {
        message_builder = message_builder.cc(Address::from_list(cc));
    }
    if bcc.len() > 0 {
        message_builder = message_builder.bcc(Address::from_list(bcc));
    }
    let (text, html) = match read_parts(&parsed_mail.parts) {
        Ok(content) => content,
        Err(e) => {
            return Err(e);
        },
    };
    if let Some(html) = &html {
        message_builder = message_builder.html(html.as_str());
    }
    if let Some(text) = &text {
        message_builder = message_builder.text(text.as_str());
    }
    if let Some(subject) = &subject {
        message_builder = message_builder.subject(subject.as_str());
    }
    if let Some(sent) = sent {
        message_builder = message_builder.sent(sent);
    }
    Ok(message_builder)
}

/// What a message says of itself, from its bytes as RFC 822 lays them out.
pub fn from_rfc822(bytes: &Vec<u8>) -> (builder: Result<MessageBuilder, Error>)
    ensures
        match builder {
            Ok(b) => parsed_mail(bytes@) matches Some(mail) && builder_of(mail) == Ok::<
                BuilderView,
                ErrorKind,
            >(b@),
            Err(e) => match parsed_mail(bytes@) {
                Some(mail) => builder_of(mail) == Err::<BuilderView, ErrorKind>(e@.kind),
                None => e@.kind == ErrorKind::ParseMessage,
            },
        },
{
    match parse_mail(bytes) {
        Ok(parsed) => from_parsed_mail(parsed),
        Err(_) => Err(Error::new(ErrorKind::ParseMessage, "Failed to parse mail message".to_owned())),
    }
}

} // verus!
