//! The markup tree: nodes, values, and the escape policy of a value.

use vstd::prelude::*;

verus! {

/// Whether the text of a value is entity-escaped when it is rendered.
#[derive(Clone, Copy, Debug, PartialEq, Eq, Structural)]
pub enum Escape {
    NoEscape,
    Escape,
}

/// A host-language expression, kept as its source text. Nothing here looks
/// inside it; it is carried to whoever lowers the tree.
#[derive(Debug, PartialEq, Eq)]
pub struct Expr {
    pub source: String,
}

/// What a value holds: literal text, or an expression to evaluate later.
#[derive(Debug, PartialEq, Eq)]
pub enum Value_ {
    Literal(String),
    Splice(Expr),
}

/// A value together with its escape policy.
#[derive(Debug, PartialEq, Eq)]
pub struct Value {
    pub value: Value_,
    pub escape: Escape,
}

/// One node of the markup tree. `Empty` marks the end of a parse and never
/// stands in a finished tree.
#[derive(Debug, PartialEq, Eq)]
pub enum Markup {
    Empty,
    Element(Vec<(String, Value)>, Vec<Markup>),
    Value(Value),
}

/// Model of [`Value_`].
pub ghost enum PayloadView {
    Literal(Seq<char>),
    Splice(Seq<char>),
}

/// Model of [`Value`].
pub ghost struct ValueView {
    pub value: PayloadView,
    pub escape: Escape,
}

/// Model of [`Markup`].
pub ghost enum MarkupView {
    Empty,
    Element(Seq<(Seq<char>, ValueView)>, Seq<MarkupView>),
    Value(ValueView),
}

impl View for Expr {
    type V = Seq<char>;

    open spec fn view(&self) -> Seq<char> {
        self.source@
    }
}

impl View for Value_ {
    type V = PayloadView;

    open spec fn view(&self) -> PayloadView {
        match self {
            Value_::Literal(text) => PayloadView::Literal(text@),
            Value_::Splice(expr) => PayloadView::Splice(expr@),
        }
    }
}

impl View for Value {
    type V = ValueView;

    open spec fn view(&self) -> ValueView {
        ValueView { value: self.value@, escape: self.escape }
    }
}

/// The model of one attribute: its name and its value.
pub open spec fn attribute_view(attribute: (String, Value)) -> (Seq<char>, ValueView) {
    (attribute.0@, attribute.1@)
}

impl View for Markup {
    type V = MarkupView;

    open spec fn view(&self) -> MarkupView
        decreases self,
    {
        match self {
            Markup::Empty => MarkupView::Empty,
            Markup::Element(attributes, children) => MarkupView::Element(
                Seq::new(attributes@.len(), |i: int| attribute_view(attributes@[i])),
                Seq::new(
                    children@.len(),
                    |i: int|
                        if 0 <= i < children@.len() {
                            children@[i].view()
                        } else {
                            MarkupView::Empty
                        },
                ),
            ),
            Markup::Value(value) => MarkupView::Value(value@),
        }
    }
}

/// The models of a sequence of nodes, in order.
pub open spec fn markup_views(nodes: Seq<Markup>) -> Seq<MarkupView> {
    Seq::new(nodes.len(), |i: int| nodes[i]@)
}

impl Value {
    /// A value that is escaped when rendered.
    pub fn escape(value: Value_) -> (r: Value)
        ensures
            r.value == value,
            r.escape == Escape::Escape,
    {
        Value { value, escape: Escape::Escape }
    }

    /// A value that is rendered as it stands.
    pub fn no_escape(value: Value_) -> (r: Value)
        ensures
            r.value == value,
            r.escape == Escape::NoEscape,
    {
        Value { value, escape: Escape::NoEscape }
    }
}

} // verus!
