//! CSS value and stylesheet data types.
//!
//! Stylesheet text parsing is an external collaborator; this module holds
//! the immutable values that the cascade and the layout engine consume.

use vstd::prelude::*;

verus! {

/// The only length unit the engine models: CSS pixels.
#[derive(Clone, Copy, Debug, PartialEq, Eq, Structural)]
pub enum Unit {
    Px,
}

/// An RGBA color, one byte per channel.
#[derive(Clone, Copy, Debug, PartialEq, Eq, Structural)]
pub struct Color {
    pub r: u8,
    pub g: u8,
    pub b: u8,
    pub a: u8,
}

/// A specified CSS value: a pixel length, a keyword, or a color.
///
/// Only `Length` is "specific" (resolvable to a pixel magnitude without
/// further context); `Keyword("auto")` is the distinguished auto-sizing
/// marker; any other keyword or a color is never a valid sizing value.
#[derive(Debug, PartialEq)]
pub enum Value {
    Length(i64, Unit),
    Keyword(String),
    ColorValue(Color),
}

/// Mathematical image of a `Value`: lengths as unbounded integers,
/// keywords as character sequences.
pub ghost enum ValueView {
    Length(int, Unit),
    Keyword(Seq<char>),
    ColorValue(Color),
}

impl View for Value {
    type V = ValueView;

    open spec fn view(&self) -> ValueView {
        match self {
            Value::Length(m, u) => ValueView::Length(*m as int, *u),
            Value::Keyword(s) => ValueView::Keyword(s@),
            Value::ColorValue(c) => ValueView::ColorValue(*c),
        }
    }
}

impl Clone for Value {
    fn clone(&self) -> (r: Self)
        ensures
            r@ == self@,
    {
        match self {
            Value::Length(m, u) => Value::Length(*m, *u),
            Value::Keyword(s) => Value::Keyword(s.clone()),
            Value::ColorValue(c) => Value::ColorValue(*c),
        }
    }
}

impl ValueView {
    /// Whether this value resolves to a pixel magnitude with no context.
    pub open spec fn is_specific_length(self) -> bool {
        self is Length
    }

    /// Whether this value is the distinguished `auto` keyword.
    pub open spec fn is_auto(self) -> bool {
        self matches ValueView::Keyword(k) && k == "auto"@
    }

    /// The pixel magnitude of a length; any other value counts as 0.
    pub open spec fn px_or_zero(self) -> int {
        match self {
            ValueView::Length(m, _) => m,
            _ => 0,
        }
    }

    /// Whether this value may stand where a size is expected:
    /// a length, or the `auto` keyword.
    pub open spec fn is_sizing(self) -> bool {
        self.is_specific_length() || self.is_auto()
    }
}

/// A parsed stylesheet: rules in source order.
#[derive(Debug)]
pub struct Stylesheet {
    pub rules: Vec<Rule>,
}

/// A rule: the selectors it applies under, and the declarations it
/// contributes.
#[derive(Debug)]
pub struct Rule {
    pub selectors: Vec<Selector>,
    pub declarations: Vec<Declaration>,
}

/// A selector; only simple selectors are modeled.
#[derive(Debug)]
pub enum Selector {
    Simple(SimpleSelector),
}

/// A simple selector: an optional tag name, an optional id, and any
/// number of required classes.
#[derive(Debug)]
pub struct SimpleSelector {
    pub tag_name: Option<String>,
    pub id: Option<String>,
    pub class: Vec<String>,
}

/// One `name: value` declaration.
#[derive(Debug)]
pub struct Declaration {
    pub name: String,
    pub value: Value,
}

pub ghost struct SimpleSelectorView {
    pub tag_name: Option<Seq<char>>,
    pub id: Option<Seq<char>>,
    pub class: Seq<Seq<char>>,
}

pub ghost enum SelectorView {
    Simple(SimpleSelectorView),
}

pub ghost struct DeclarationView {
    pub name: Seq<char>,
    pub value: ValueView,
}

pub ghost struct RuleView {
    pub selectors: Seq<SelectorView>,
    pub declarations: Seq<DeclarationView>,
}

pub ghost struct StylesheetView {
    pub rules: Seq<RuleView>,
}

impl View for SimpleSelector {
    type V = SimpleSelectorView;

    open spec fn view(&self) -> SimpleSelectorView {
        SimpleSelectorView {
            tag_name: match self.tag_name {
                Some(t) => Some(t@),
                None => None,
            },
            id: match self.id {
                Some(t) => Some(t@),
                None => None,
            },
            class: Seq::new(self.class@.len(), |i: int| self.class@[i]@),
        }
    }
}

impl View for Selector {
    type V = SelectorView;

    open spec fn view(&self) -> SelectorView {
        match self {
            Selector::Simple(s) => SelectorView::Simple(s@),
        }
    }
}

impl View for Declaration {
    type V = DeclarationView;

    open spec fn view(&self) -> DeclarationView {
        DeclarationView { name: self.name@, value: self.value@ }
    }
}

impl View for Rule {
    type V = RuleView;

    open spec fn view(&self) -> RuleView {
        RuleView {
            selectors: Seq::new(self.selectors@.len(), |i: int| self.selectors@[i]@),
            declarations: Seq::new(self.declarations@.len(), |i: int| self.declarations@[i]@),
        }
    }
}

impl View for Stylesheet {
    type V = StylesheetView;

    open spec fn view(&self) -> StylesheetView {
        StylesheetView { rules: Seq::new(self.rules@.len(), |i: int| self.rules@[i]@) }
    }
}

/// Selector specificity: id count, class count, tag count.
pub type Specificity = (usize, usize, usize);

impl SelectorView {
    /// The specificity a selector carries.
    pub open spec fn spec_specificity(self) -> (int, int, int) {
        match self {
            SelectorView::Simple(s) => (
                if s.id is Some {
                    1int
                } else {
                    0int
                },
                s.class.len() as int,
                if s.tag_name is Some {
                    1int
                } else {
                    0int
                },
            ),
        }
    }
}

impl Selector {
    /// Count the simple selector's id, classes, and tag name.
    pub fn specificity(&self) -> (r: Specificity)
        ensures
            r.0 as int == self@.spec_specificity().0,
            r.1 as int == self@.spec_specificity().1,
            r.2 as int == self@.spec_specificity().2,
    {
        let Selector::Simple(simple) = self;
        let a: usize = if simple.id.is_some() {
            1
        } else {
            0
        };
        let b: usize = simple.class.len();
        let c: usize = if simple.tag_name.is_some() {
            1
        } else {
            0
        };
        (a, b, c)
    }
}

} // verus!
