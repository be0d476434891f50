//! A small HTML parser: balanced tags, attributes with quoted values,
//! and text runs.  Malformed markup is reported as an error value,
//! never as a panic.

use vstd::prelude::*;
use vstd::string::StrSliceExecFns;
use vstd::string::StringExecFns;
use crate::dom;
use crate::strutil::str_eq;

verus! {

/// Failures of the markup parser: the input ended inside a construct,
/// an unexpected character stood where a token was required, or a
/// closing tag did not match its opening tag.
#[derive(Clone, Copy, Debug, PartialEq, Eq, Structural)]
pub enum ParseError {
    UnexpectedEnd,
    UnexpectedToken,
    MismatchedTag,
    MismatchedQuote,
}

/// Whether a character may stand in a tag or attribute name.
pub open spec fn spec_name_char(c: char) -> bool {
    ('a' <= c && c <= 'z') || ('A' <= c && c <= 'Z') || ('0' <= c && c <= '9')
}

/// Whether a character is markup whitespace.
pub open spec fn spec_space(c: char) -> bool {
    c == ' ' || c == '\n' || c == '\t' || c == '\r'
}

fn is_name_char(c: char) -> (r: bool)
    ensures
        r == spec_name_char(c),
{
    ('a' <= c && c <= 'z') || ('A' <= c && c <= 'Z') || ('0' <= c && c <= '9')
}

fn is_space_char(c: char) -> (r: bool)
    ensures
        r == spec_space(c),
{
    c == ' ' || c == '\n' || c == '\t' || c == '\r'
}

/// The parser's cursor over the input: `pos` counts characters from
/// the start, never past the end.
struct Parser {
    pos: usize,
    input: String,
}

impl Parser {
    /// The cursor is within the input, and the input's length fits
    /// the machine word that indexes it.
    spec fn wf(&self) -> bool {
        self.pos <= self.input@.len() && self.input@.len() <= usize::MAX
    }

    /// Read the current character without consuming it.
    fn next_char(&self) -> (c: char)
        requires
            self.wf(),
            self.pos < self.input@.len(),
        ensures
            c == self.input@[self.pos as int],
    {
        self.input.as_str().get_char(self.pos)
    }

    /// Do the next characters start with the given string?
    fn starts_with(&self, s: &str) -> (r: bool)
        requires
            self.wf(),
        ensures
            r == (self.pos + s@.len() <= self.input@.len() && self.input@.subrange(
                self.pos as int,
                self.pos + s@.len(),
            ) == s@),
    {
        let n: usize = s.unicode_len();
        let total: usize = self.input.as_str().unicode_len();
        if total - self.pos < n {
            return false;
        }
        let mut i: usize = 0;
        while i < n
            invariant
                self.wf(),
                n == s@.len(),
                total == self.input@.len(),
                self.pos + n <= total,
                i <= n,
                forall|j: int| 0 <= j < i ==> self.input@[self.pos + j] == s@[j],
            decreases n - i,
        {
            if self.input.as_str().get_char(self.pos + i) != s.get_char(i) {
                proof {
                    assert(self.input@.subrange(self.pos as int, self.pos + s@.len())[i as int]
                        != s@[i as int]);
                }
                return false;
            }
            i += 1;
        }
        proof {
            assert(self.input@.subrange(self.pos as int, self.pos + s@.len()) =~= s@);
        }
        true
    }

    /// If the exact string `s` is found at the current position,
    /// consume it; otherwise report the unexpected input.
    fn expect(&mut self, s: &str) -> (r: Result<(), ParseError>)
        requires
            old(self).wf(),
        ensures
            final(self).wf(),
            final(self).input == old(self).input,
            match r {
                Ok(_) => final(self).pos == old(self).pos + s@.len() && old(self).pos + s@.len()
                    <= old(self).input@.len() && old(self).input@.subrange(
                    old(self).pos as int,
                    old(self).pos + s@.len(),
                ) == s@,
                Err(e) => final(self).pos == old(self).pos && e == ParseError::UnexpectedToken,
            },
    {
        if self.starts_with(s) {
            self.pos = self.pos + s.unicode_len();
            Ok(())
        } else {
            Err(ParseError::UnexpectedToken)
        }
    }

    /// Return true if all input is consumed.
    fn eof(&self) -> (r: bool)
        requires
            self.wf(),
        ensures
            r == (self.pos == self.input@.len()),
    {
        self.pos >= self.input.as_str().unicode_len()
    }

    /// Return the current character, and advance past it.
    fn consume_char(&mut self) -> (c: char)
        requires
            old(self).wf(),
            old(self).pos < old(self).input@.len(),
        ensures
            final(self).wf(),
            final(self).input == old(self).input,
            final(self).pos == old(self).pos + 1,
            c == old(self).input@[old(self).pos as int],
    {
        let c = self.next_char();
        self.pos = self.pos + 1;
        c
    }

    /// Consume and discard zero or more whitespace characters.
    fn consume_whitespace(&mut self)
        requires
            old(self).wf(),
        ensures
            final(self).wf(),
            final(self).input == old(self).input,
            final(self).pos >= old(self).pos,
            final(self).pos < final(self).input@.len()
                ==> !spec_space(final(self).input@[final(self).pos as int]),
    {
        while !self.eof() && is_space_char(self.next_char())
            invariant
                self.wf(),
                self.input == old(self).input,
                self.pos >= old(self).pos,
            decreases self.input@.len() - self.pos,
        {
            self.pos = self.pos + 1;
        }
    }

    /// Parse a tag or attribute name: a maximal run of ASCII letters
    /// and digits.
    fn parse_name(&mut self) -> (r: String)
        requires
            old(self).wf(),
        ensures
            final(self).wf(),
            final(self).input == old(self).input,
            final(self).pos >= old(self).pos,
            r@ == old(self).input@.subrange(old(self).pos as int, final(self).pos as int),
            forall|j: int|
                old(self).pos <= j < final(self).pos ==> spec_name_char(final(self).input@[j]),
            final(self).pos < final(self).input@.len()
                ==> !spec_name_char(final(self).input@[final(self).pos as int]),
    {
        let start = self.pos;
        while !self.eof() && is_name_char(self.next_char())
            invariant
                self.wf(),
                self.input == old(self).input,
                start <= self.pos,
                forall|j: int| start <= j < self.pos ==> spec_name_char(self.input@[j]),
            decreases self.input@.len() - self.pos,
        {
            self.pos = self.pos + 1;
        }
        let piece = self.input.as_str().substring_char(start, self.pos);
        String::from_str(piece)
    }

    /// Parse a text run: everything up to the next `<`.
    fn parse_text(&mut self) -> (r: dom::Node)
        requires
            old(self).wf(),
        ensures
            final(self).wf(),
            final(self).input == old(self).input,
            final(self).pos >= old(self).pos,
            final(self).pos < final(self).input@.len()
                ==> final(self).input@[final(self).pos as int] == '<',
            r@.node_type == dom::NodeTypeView::Text(
                old(self).input@.subrange(old(self).pos as int, final(self).pos as int),
            ),
            old(self).pos < old(self).input@.len() && old(self).input@[old(self).pos as int]
                != '<' ==> final(self).pos > old(self).pos,
    {
        let start = self.pos;
        while !self.eof() && self.next_char() != '<'
            invariant
                self.wf(),
                self.input == old(self).input,
                start <= self.pos,
            decreases self.input@.len() - self.pos,
        {
            self.pos = self.pos + 1;
        }
        let piece = self.input.as_str().substring_char(start, self.pos);
        dom::text(String::from_str(piece))
    }

    /// Parse a quoted attribute value; the closing quote must match
    /// the opening one.
    fn parse_attr_value(&mut self) -> (r: Result<String, ParseError>)
        requires
            old(self).wf(),
        ensures
            final(self).wf(),
            final(self).input == old(self).input,
            final(self).pos >= old(self).pos,
            r is Ok ==> final(self).pos > old(self).pos,
    {
        if self.eof() {
            return Err(ParseError::UnexpectedEnd);
        }
        let open_quote = self.consume_char();
        if !(open_quote == '"' || open_quote == '\'') {
            return Err(ParseError::MismatchedQuote);
        }
        let start = self.pos;
        while !self.eof() && self.next_char() != open_quote
            invariant
                self.wf(),
                self.input == old(self).input,
                start <= self.pos,
            decreases self.input@.len() - self.pos,
        {
            self.pos = self.pos + 1;
        }
        if self.eof() {
            return Err(ParseError::UnexpectedEnd);
        }
        let piece = self.input.as_str().substring_char(start, self.pos);
        let value = String::from_str(piece);
        let close_quote = self.consume_char();
        if close_quote != open_quote {
            return Err(ParseError::MismatchedQuote);
        }
        Ok(value)
    }

    /// Parse a single `name="value"` pair.
    fn parse_attr(&mut self) -> (r: Result<(String, String), ParseError>)
        requires
            old(self).wf(),
        ensures
            final(self).wf(),
            final(self).input == old(self).input,
            final(self).pos >= old(self).pos,
    {
        proof {
            reveal_strlit("=");
        }
        let name = self.parse_name();
        match self.expect("=") {
            Ok(_) => {
            },
            Err(e) => {
                return Err(e);
            },
        }
        let value = match self.parse_attr_value() {
            Ok(v) => v,
            Err(e) => {
                return Err(e);
            },
        };
        Ok((name, value))
    }

    /// Parse a whitespace-separated list of `name="value"` pairs,
    /// ending at `>`.
    fn parse_attributes(&mut self) -> (r: Result<dom::AttrMap, ParseError>)
        requires
            old(self).wf(),
        ensures
            final(self).wf(),
            final(self).input == old(self).input,
            final(self).pos >= old(self).pos,
    {
        let mut attributes = dom::AttrMap::new();
        loop
            invariant
                self.wf(),
                self.input == old(self).input,
                self.pos >= old(self).pos,
            decreases self.input@.len() - self.pos,
        {
            let ghost pos0 = self.pos;
            self.consume_whitespace();
            if self.eof() {
                return Err(ParseError::UnexpectedEnd);
            }
            if self.next_char() == '>' {
                break;
            }
            let pos_before = self.pos;
            let (name, value) = match self.parse_attr() {
                Ok(p) => p,
                Err(e) => {
                    return Err(e);
                },
            };
            if self.pos == pos_before {
                // An attribute that consumed nothing would loop
                // forever; the input is malformed here.
                return Err(ParseError::UnexpectedToken);
            }
            attributes.insert(name, value);
        }
        Ok(attributes)
    }

    /// Parse a single node: an element if the input starts with `<`,
    /// else a text run.
    fn parse_node(&mut self) -> (r: Result<dom::Node, ParseError>)
        requires
            old(self).wf(),
            old(self).pos < old(self).input@.len(),
        ensures
            final(self).wf(),
            final(self).input == old(self).input,
            final(self).pos >= old(self).pos,
            r is Ok ==> final(self).pos > old(self).pos,
        decreases old(self).input@.len() - old(self).pos, 1int,
    {
        if self.next_char() == '<' {
            self.parse_element()
        } else {
            Ok(self.parse_text())
        }
    }

    /// Parse an element: opening tag, attributes, children, and the
    /// matching closing tag.
    fn parse_element(&mut self) -> (r: Result<dom::Node, ParseError>)
        requires
            old(self).wf(),
        ensures
            final(self).wf(),
            final(self).input == old(self).input,
            final(self).pos >= old(self).pos,
            r is Ok ==> final(self).pos > old(self).pos,
        decreases old(self).input@.len() - old(self).pos, 0int,
    {
        proof {
            reveal_strlit("<");
            reveal_strlit(">");
            reveal_strlit("</");
        }
        match self.expect("<") {
            Ok(_) => {
            },
            Err(e) => {
                return Err(e);
            },
        }
        let tag_name = self.parse_name();
        let attrs = match self.parse_attributes() {
            Ok(a) => a,
            Err(e) => {
                return Err(e);
            },
        };
        match self.expect(">") {
            Ok(_) => {
            },
            Err(e) => {
                return Err(e);
            },
        }
        let children = match self.parse_nodes() {
            Ok(cs) => cs,
            Err(e) => {
                return Err(e);
            },
        };
        match self.expect("</") {
            Ok(_) => {
            },
            Err(e) => {
                return Err(e);
            },
        }
        let close_name = self.parse_name();
        if !str_eq(close_name.as_str(), tag_name.as_str()) {
            return Err(ParseError::MismatchedTag);
        }
        match self.expect(">") {
            Ok(_) => {
            },
            Err(e) => {
                return Err(e);
            },
        }
        Ok(dom::elem(tag_name, attrs, children))
    }

    /// Parse a sequence of sibling nodes, up to the end of input or a
    /// closing tag.
    fn parse_nodes(&mut self) -> (r: Result<Vec<dom::Node>, ParseError>)
        requires
            old(self).wf(),
        ensures
            final(self).wf(),
            final(self).input == old(self).input,
            final(self).pos >= old(self).pos,
            old(self).pos == old(self).input@.len()
                ==> r is Ok && r->Ok_0@.len() == 0 && final(self).pos == old(self).pos,
        decreases old(self).input@.len() - old(self).pos, 2int,
    {
        let mut nodes: Vec<dom::Node> = Vec::new();
        loop
            invariant
                self.wf(),
                self.input == old(self).input,
                self.pos >= old(self).pos,
                old(self).pos == old(self).input@.len() ==> nodes@.len() == 0 && self.pos == old(
                    self,
                ).pos,
            decreases self.input@.len() - self.pos,
        {
            self.consume_whitespace();
            if self.eof() {
                break;
            }
            if self.starts_with("</") {
                break;
            }
            let node = match self.parse_node() {
                Ok(n) => n,
                Err(e) => {
                    return Err(e);
                },
            };
            nodes.push(node);
        }
        Ok(nodes)
    }
}

/// Parse an HTML document and return the root element.  If the
/// document holds exactly one root node, that node is returned;
/// otherwise the nodes are wrapped in an `html` element.
pub fn parse(source: String) -> (r: Result<dom::Node, ParseError>)
    ensures
        source@.len() == 0 ==> r is Ok && r->Ok_0@ == (dom::NodeView {
            children: Seq::<dom::NodeView>::empty(),
            node_type: dom::NodeTypeView::Element(
                dom::ElementDataView {
                    tag_name: "html"@,
                    attrs: Map::<Seq<char>, Seq<char>>::empty(),
                },
            ),
        }),
{
    let total: usize = source.as_str().unicode_len();
    proof {
        assert(total as nat == source@.len());
    }
    let mut parser = Parser { pos: 0, input: source };
    let mut nodes = match parser.parse_nodes() {
        Ok(ns) => ns,
        Err(e) => {
            return Err(e);
        },
    };
    if nodes.len() == 1 {
        let node = nodes.remove(0);
        Ok(node)
    } else {
        Ok(dom::elem(String::from_str("html"), dom::AttrMap::new(), nodes))
    }
}

} // verus!
