//! The generic tree of labelled nodes that a netlist is written in.
use vstd::prelude::*;
use vstd::string::*;
use crate::error::{agrees, ParseError, ParseErrorView};
use crate::seqs::lemma_filter_skip;
use crate::text::str_eq;

pub mod lexer;
pub mod parser;

verus! {

/// An S-expression: a label followed by children, or a string atom. The
/// strings are slices of the source text.
#[derive(Debug, PartialEq, Eq)]
pub enum SExpr<'a> {
    SExpr(&'a str, Vec<SExpr<'a>>),
    String(&'a str),
}

impl<'a> Clone for SExpr<'a> {
    fn clone(&self) -> (r: Self)
        ensures
            r@ == self@,
    {
        self.duplicate()
    }
}

/// An S-expression with its strings as character sequences.
pub enum SExprView {
    Labeled(Seq<char>, Seq<SExprView>),
    Atom(Seq<char>),
}

/// The view of an S-expression.
pub open spec fn sexpr_view(e: SExpr<'_>) -> SExprView
    decreases e,
{
    match e {
        SExpr::SExpr(label, children) => SExprView::Labeled(
            label@,
            Seq::new(
                children@.len(),
                |i: int|
                    if 0 <= i < children@.len() {
                        sexpr_view(children@[i])
                    } else {
                        SExprView::Atom(Seq::empty())
                    },
            ),
        ),
        SExpr::String(s) => SExprView::Atom(s@),
    }
}

impl<'a> View for SExpr<'a> {
    type V = SExprView;

    open spec fn view(&self) -> SExprView {
        sexpr_view(*self)
    }
}

/// The views of a sequence of S-expressions.
pub open spec fn views(v: Seq<SExpr<'_>>) -> Seq<SExprView> {
    Seq::new(v.len(), |i: int| v[i]@)
}

/// The view of a labelled expression holds the views of its children.
pub proof fn lemma_view_labeled<'a>(label: &'a str, children: Vec<SExpr<'a>>)
    ensures
        SExpr::SExpr(label, children)@ == SExprView::Labeled(label@, views(children@)),
{
    let n = SExpr::SExpr(label, children);
    assert(n@->Labeled_1 =~= views(children@));
}

impl SExprView {
    /// A labelled node with this label.
    pub open spec fn has_label(self, label: Seq<char>) -> bool {
        self matches SExprView::Labeled(l, _) && l == label
    }

    /// The direct children with the given label, in document order.
    pub open spec fn children(self, label: Seq<char>) -> Seq<SExprView> {
        match self {
            SExprView::Labeled(_, items) => items.filter(labelled(label)),
            SExprView::Atom(_) => Seq::empty(),
        }
    }

    /// The first direct child with the given label.
    pub open spec fn child(self, label: Seq<char>) -> Result<SExprView, ParseErrorView> {
        let found = self.children(label);
        if found.len() > 0 {
            Ok(found[0])
        } else {
            Err(ParseErrorView::MissingChild(label))
        }
    }

    /// The string that a node leads with: its first child, where that is an
    /// atom.
    pub open spec fn leading(self) -> Option<Seq<char>> {
        match self {
            SExprView::Labeled(_, items) => if items.len() > 0 && items[0] is Atom {
                Some(items[0]->Atom_0)
            } else {
                None
            },
            SExprView::Atom(_) => None,
        }
    }

    /// The leading string of the first direct child with the given label.
    pub open spec fn value(self, label: Seq<char>) -> Result<Seq<char>, ParseErrorView> {
        match self.child(label) {
            Err(e) => Err(e),
            Ok(c) => match c.leading() {
                Some(s) => Ok(s),
                None => Err(ParseErrorView::MissingValue),
            },
        }
    }
}

/// The predicate that holds of the nodes with the given label.
pub open spec fn labelled(label: Seq<char>) -> spec_fn(SExprView) -> bool {
    |c: SExprView| c.has_label(label)
}

/// The text of an S-expression: a labelled node in parentheses, each child
/// after a space, and an atom between quotes as it stands.
pub open spec fn render(e: SExprView) -> Seq<char>
    decreases e, 0nat,
{
    match e {
        SExprView::Labeled(label, items) => "("@ + label + render_items(items, items.len()) + ")"@,
        SExprView::Atom(s) => "\""@ + s + "\""@,
    }
}

/// The text of the first `n` items, a space before each.
pub open spec fn render_items(items: Seq<SExprView>, n: nat) -> Seq<char>
    decreases items, n,
{
    if n == 0 || n > items.len() {
        Seq::empty()
    } else {
        render_items(items, (n - 1) as nat) + " "@ + render(items[n - 1])
    }
}

impl<'a> SExpr<'a> {
    /// A copy of the expression; the strings are the same slices.
    fn duplicate(&self) -> (r: SExpr<'a>)
        ensures
            r@ == self@,
        decreases self,
    {
        match self {
            SExpr::SExpr(label, children) => {
                proof {
                    lemma_view_labeled(*label, *children);
                }
                let mut out: Vec<SExpr<'a>> = Vec::new();
                let mut i: usize = 0;
                while i < children.len()
                    invariant
                        i <= children.len(),
                        out.len() == i,
                        forall|j: int| 0 <= j < i ==> (#[trigger] out[j])@ == children[j]@,
                        forall|j: int|
                            0 <= j < children.len() ==> decreases_to!(self => #[trigger] children@[j]),
                    decreases children.len() - i,
                {
                    out.push(children[i].duplicate());
                    i += 1;
                }
                proof {
                    lemma_view_labeled(*label, out);
                    assert(views(out@) =~= views(children@));
                }
                SExpr::SExpr(*label, out)
            },
            SExpr::String(s) => SExpr::String(*s),
        }
    }

    /// The leading string of the first child with the given label.
    ///
    /// Fails with `MissingChild` where there is no such child, with
    /// `MissingValue` where the child is empty or starts with another node.
    pub fn value(&self, label: &str) -> (r: Result<&'a str, ParseError>)
        ensures
            agrees(r, self@.value(label@)),
    {
        let child = match self.child(label) {
            Err(e) => {
                return Err(e);
            },
            Ok(c) => c,
        };
        match child {
            SExpr::SExpr(l, children) => {
                proof {
                    lemma_view_labeled(*l, *children);
                }
                if children.len() > 0 {
                    match &children[0] {
                        SExpr::String(s) => {
                            return Ok(*s);
                        },
                        SExpr::SExpr(_, _) => {},
                    }
                }
            },
            SExpr::String(_) => {},
        }
        Err(ParseError::MissingValue())
    }

    /// The children with the given label, in document order.
    pub fn children<'b, 'c>(&'b self, label: &'c str) -> (r: LabeledChildIterator<'a, 'b, 'c>)
        ensures
            r.remaining() == self@.children(label@),
    {
        match self {
            SExpr::String(_) => LabeledChildIterator { items: None, pos: 0, label },
            SExpr::SExpr(l, children) => {
                proof {
                    lemma_view_labeled(*l, *children);
                    assert(views(children@).skip(0) =~= views(children@));
                }
                LabeledChildIterator { items: Some(children), pos: 0, label }
            },
        }
    }

    /// The first child with the given label; `MissingChild` where there is
    /// none.
    pub fn child<'b>(&self, label: &'b str) -> (r: Result<&SExpr<'a>, ParseError>)
        ensures
            agrees(r, self@.child(label@)),
    {
        let mut iter = self.children(label);
        match iter.next() {
            Some(c) => Ok(c),
            None => Err(ParseError::MissingChild(label.to_owned())),
        }
    }

    /// The expression as text.
    pub fn to_string(&self) -> (r: String)
        ensures
            r@ == render(self@),
        decreases self,
    {
        match self {
            SExpr::SExpr(label, children) => {
                proof {
                    lemma_view_labeled(*label, *children);
                }
                let ghost items = views(children@);
                let mut out = "(".to_owned();
                out.append(label);
                assert(out@ =~= "("@ + label@ + render_items(items, 0));
                let mut i: usize = 0;
                while i < children.len()
                    invariant
                        i <= children.len(),
                        items == views(children@),
                        out@ == "("@ + label@ + render_items(items, i as nat),
                        forall|j: int|
                            0 <= j < children.len() ==> decreases_to!(self => #[trigger] children@[j]),
                    decreases children.len() - i,
                {
                    let c = children[i].to_string();
                    out.append(" ");
                    out.append(c.as_str());
                    i += 1;
                    assert(out@ =~= "("@ + label@ + render_items(items, i as nat));
                }
                out.append(")");
                out
            },
            SExpr::String(s) => {
                let mut out = "\"".to_owned();
                out.append(s);
                out.append("\"");
                out
            },
        }
    }
}

/// Walks the children of a node that carry one label.
#[derive(Debug)]
pub struct LabeledChildIterator<'a, 'b, 'c> {
    items: Option<&'b Vec<SExpr<'a>>>,
    pos: usize,
    label: &'c str,
}

impl<'a, 'b, 'c> LabeledChildIterator<'a, 'b, 'c> {
    #[verifier::type_invariant]
    spec fn inv(self) -> bool {
        match self.items {
            Some(v) => self.pos <= v@.len(),
            None => true,
        }
    }

    /// The children that are still to come.
    pub closed spec fn remaining(&self) -> Seq<SExprView> {
        match self.items {
            Some(v) => views(v@).skip(self.pos as int).filter(labelled(self.label@)),
            None => Seq::empty(),
        }
    }

    /// The next child with the label, or `None` when all have been given.
    pub fn next(&mut self) -> (r: Option<&'b SExpr<'a>>)
        ensures
            match r {
                Some(e) => {
                    &&& old(self).remaining().len() > 0
                    &&& e@ == old(self).remaining()[0]
                    &&& final(self).remaining() == old(self).remaining().drop_first()
                },
                None => old(self).remaining().len() == 0 && final(self).remaining().len() == 0,
            },
    {
        proof {
            use_type_invariant(&*self);
        }
        let items = match self.items {
            None => {
                return None;
            },
            Some(v) => v,
        };
        let ghost all = views(items@);
        let ghost want = labelled(self.label@);
        let mut i: usize = self.pos;
        while i < items.len()
            invariant
                i <= items.len(),
                all == views(items@),
                want == labelled(self.label@),
                self.items == Some(items),
                self.label == old(self).label,
                all.skip(i as int).filter(want) == old(self).remaining(),
            decreases items.len() - i,
        {
            proof {
                lemma_filter_skip(all, want, i as int);
            }
            match &items[i] {
                SExpr::SExpr(l, _) => {
                    if str_eq(l, self.label) {
                        self.pos = i + 1;
                        assert(old(self).remaining().drop_first() =~= all.skip(i + 1).filter(want));
                        return Some(&items[i]);
                    }
                },
                SExpr::String(_) => {},
            }
            i += 1;
        }
        self.pos = i;
        None
    }
}

} // verus!
