//! The content of a message: as plain text, as html, or both.

use crate::attachment::opt_text;
use vstd::prelude::*;

verus! {

/// What a [`Content`] holds.
pub struct ContentView {
    pub text: Option<Seq<char>>,
    pub html: Option<Seq<char>>,
}

/// The content of a message.
#[derive(Debug)]
pub struct Content {
    text: Option<String>,
    html: Option<String>,
}

impl View for Content {
    type V = ContentView;

    closed spec fn view(&self) -> ContentView {
        ContentView { text: opt_text(self.text), html: opt_text(self.html) }
    }
}

impl Default for Content {
    /// No content at all.
    fn default() -> (content: Self)
        ensures
            content@ == (ContentView { text: None, html: None }),
    {
        Self { html: None, text: None }
    }
}

impl Content {
    pub fn new(text: Option<String>, html: Option<String>) -> (content: Self)
        ensures
            content@ == (ContentView { text: opt_text(text), html: opt_text(html) }),
    {
        Self { text, html }
    }

    /// A content of plain text only.
    pub fn from_text(text: &str) -> (content: Self)
        ensures
            content@ == (ContentView { text: Some(text@), html: None }),
    {
        Self::new(Some(text.to_owned()), None)
    }

    pub fn set_text(&mut self, text: &str)
        ensures
            final(self)@ == (ContentView { text: Some(text@), ..old(self)@ }),
    {
        self.text = Some(text.to_owned())
    }

    pub fn set_html(&mut self, html: &str)
        ensures
            final(self)@ == (ContentView { html: Some(html@), ..old(self)@ }),
    {
        self.html = Some(html.to_owned())
    }

    /// The message in pure text form.
    pub fn text(&self) -> (text: Option<&str>)
        ensures
            match text {
                Some(t) => self@.text == Some(t@),
                None => self@.text is None,
            },
    {
        match &self.text {
            Some(text) => Some(text.as_str()),
            None => None,
        }
    }

    /// The message as an html page.
    pub fn html(&self) -> (html: Option<&str>)
        ensures
            match html {
                Some(h) => self@.html == Some(h@),
                None => self@.html is None,
            },
    {
        match &self.html {
            Some(html) => Some(html.as_str()),
            None => None,
        }
    }

    /// The plain text and the html, by value.
    pub fn into_parts(self) -> (parts: (Option<String>, Option<String>))
        ensures
            opt_text(parts.0) == self@.text,
            opt_text(parts.1) == self@.html,
    {
        (self.text, self.html)
    }
}

} // verus!
