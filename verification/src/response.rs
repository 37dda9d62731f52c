//! A server's reply, as the framing of the connection hands it over.

use vstd::prelude::*;

verus! {

/// The texts of the lines, in their order.
pub open spec fn line_views(lines: Seq<String>) -> Seq<Seq<char>> {
    Seq::new(lines.len(), |i: int| lines[i]@)
}

/// A reply: whether the server accepted the command, and the text lines that
/// it sent, without status code and line ends.
#[derive(Debug, Clone, PartialEq, Eq)]
pub struct Response {
    success: bool,
    lines: Vec<String>,
}

impl Response {
    /// Whether the server accepted the command.
    pub closed spec fn success(&self) -> bool {
        self.success
    }

    /// The texts of the lines, in their order.
    pub closed spec fn lines(&self) -> Seq<Seq<char>> {
        line_views(self.lines@)
    }

    /// A reply of these lines.
    pub fn new(success: bool, lines: Vec<String>) -> (r: Response)
        ensures
            r.success() == success,
            r.lines() == line_views(lines@),
    {
        Response { success, lines }
    }

    /// Whether the server accepted the command.
    pub fn is_success(&self) -> (r: bool)
        ensures
            r == self.success(),
    {
        self.success
    }

    /// Whether the server refused the command.
    pub fn is_erroneous(&self) -> (r: bool)
        ensures
            r == !self.success(),
    {
        !self.success
    }

    /// The lines, in their order.
    pub fn msg(&self) -> (lines: &[String])
        ensures
            line_views(lines@) == self.lines(),
    {
        self.lines.as_slice()
    }
}

} // verus!
