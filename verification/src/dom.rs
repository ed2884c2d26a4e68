//! The attributed node tree the render tree builder walks.
//!
//! The markup tokenizer is an external collaborator: it hands the client a
//! tree of element, text and comment nodes.  The shell converts that tree
//! into these nodes; the builder and the tests construct them directly.

use vstd::prelude::*;

use crate::text::str_eq;

verus! {

/// One element: tag name, attribute pairs, authored class list, ordered
/// children.
#[derive(Debug, PartialEq)]
pub struct Node {
    pub tag: String,
    pub attributes: Vec<(String, String)>,
    pub classes: Vec<String>,
    pub children: Vec<NodeChild>,
}

/// One child of an element: a nested element, a text run or a comment.
#[derive(Debug, PartialEq)]
pub enum NodeChild {
    Element(Node),
    Text(String),
    Comment(String),
}

/// Number of nodes in a tree, counting elements and text runs alike.
pub open spec fn spec_tree_size(n: Node) -> nat
    decreases n,
{
    1 + spec_forest_size(n.children@)
}

/// Number of nodes in an ordered forest of children.
pub open spec fn spec_forest_size(children: Seq<NodeChild>) -> nat
    decreases children,
{
    if children.len() == 0 {
        0
    } else {
        spec_child_size(children[0]) + spec_forest_size(children.skip(1))
    }
}

/// Number of nodes under one child.
pub open spec fn spec_child_size(c: NodeChild) -> nat
    decreases c,
{
    match c {
        NodeChild::Element(n) => spec_tree_size(n),
        NodeChild::Text(_) => 1,
        NodeChild::Comment(_) => 1,
    }
}

/// A child's size never exceeds its forest's size, and every size is
/// positive.
pub proof fn lemma_forest_member_size(cs: Seq<NodeChild>, i: int)
    requires
        0 <= i < cs.len(),
    ensures
        spec_child_size(cs[i]) <= spec_forest_size(cs),
        spec_child_size(cs[i]) >= 1,
    decreases cs.len(),
{
    lemma_child_size_pos(cs[i]);
    if i == 0 {
    } else {
        lemma_forest_member_size(cs.skip(1), i - 1);
        assert(cs.skip(1)[i - 1] == cs[i]);
    }
}

/// Every child counts at least itself.
pub proof fn lemma_child_size_pos(c: NodeChild)
    ensures
        spec_child_size(c) >= 1,
    decreases c,
{
}

/// The text of the first child, when that child is a text run; empty
/// otherwise.
pub open spec fn spec_first_text(cs: Seq<NodeChild>) -> Seq<char> {
    if cs.len() > 0 {
        match cs[0] {
            NodeChild::Text(t) => t@,
            _ => Seq::empty(),
        }
    } else {
        Seq::empty()
    }
}

/// The textual content of an element: its first child when that is a text
/// run, else nothing.
pub fn first_text(children: &Vec<NodeChild>) -> (r: String)
    ensures
        r@ == spec_first_text(children@),
{
    if children.len() > 0 {
        match &children[0] {
            NodeChild::Text(t) => t.clone(),
            _ => String::new(),
        }
    } else {
        String::new()
    }
}

/// The value of the first attribute with this name, if any.
pub open spec fn spec_attr(attrs: Seq<(String, String)>, name: Seq<char>) -> Option<Seq<char>>
    decreases attrs.len(),
{
    if attrs.len() == 0 {
        None
    } else if attrs[0].0@ == name {
        Some(attrs[0].1@)
    } else {
        spec_attr(attrs.skip(1), name)
    }
}

impl Node {
    /// Looks up an attribute by name; the first occurrence wins.
    pub fn get_attribute<'a>(&'a self, name: &str) -> (r: Option<&'a String>)
        ensures
            match r {
                Some(v) => spec_attr(self.attributes@, name@) == Some(v@),
                None => spec_attr(self.attributes@, name@) is None,
            },
    {
        let mut i: usize = 0;
        proof {
            assert(self.attributes@.skip(0) =~= self.attributes@);
        }
        while i < self.attributes.len()
            invariant
                i <= self.attributes.len(),
                spec_attr(self.attributes@, name@) == spec_attr(
                    self.attributes@.skip(i as int),
                    name@,
                ),
            decreases self.attributes.len() - i,
        {
            proof {
                assert(self.attributes@.skip(i as int)[0] == self.attributes@[i as int]);
                assert(self.attributes@.skip(i as int).skip(1) =~= self.attributes@.skip(
                    i as int + 1,
                ));
            }
            if str_eq(self.attributes[i].0.as_str(), name) {
                return Some(&self.attributes[i].1);
            }
            i = i + 1;
        }
        proof {
            assert(self.attributes@.skip(self.attributes.len() as int) =~= Seq::<
                (String, String),
            >::empty());
        }
        None
    }
}

/// The first element with this tag, in depth-first pre-order.
pub open spec fn spec_find_node(cs: Seq<NodeChild>, name: Seq<char>) -> Option<Node>
    decreases cs,
{
    if cs.len() == 0 {
        None
    } else {
        match cs[0] {
            NodeChild::Element(n) => if n.tag@ == name {
                Some(n)
            } else {
                match spec_find_node(n.children@, name) {
                    Some(m) => Some(m),
                    None => spec_find_node(cs.skip(1), name),
                }
            },
            _ => spec_find_node(cs.skip(1), name),
        }
    }
}

/// Finds the first element with this tag, in depth-first pre-order.
pub fn find_element_by_name<'a>(elements: &'a Vec<NodeChild>, name: &str) -> (r: Option<
    &'a Node,
>)
    ensures
        match r {
            Some(n) => spec_find_node(elements@, name@) == Some(*n),
            None => spec_find_node(elements@, name@) is None,
        },
    decreases spec_forest_size(elements@),
{
    let mut i: usize = 0;
    proof {
        assert(elements@.skip(0) =~= elements@);
    }
    while i < elements.len()
        invariant
            i <= elements.len(),
            spec_find_node(elements@, name@) == spec_find_node(elements@.skip(i as int), name@),
        decreases elements.len() - i,
    {
        proof {
            assert(elements@.skip(i as int)[0] == elements@[i as int]);
            assert(elements@.skip(i as int).skip(1) =~= elements@.skip(i as int + 1));
        }
        match &elements[i] {
            NodeChild::Element(n) => {
                if str_eq(n.tag.as_str(), name) {
                    return Some(n);
                }
                proof {
                    lemma_forest_member_size(elements@, i as int);
                    assert(spec_child_size(elements@[i as int]) == 1 + spec_forest_size(
                        n.children@,
                    ));
                }
                match find_element_by_name(&n.children, name) {
                    Some(m) => {
                        return Some(m);
                    },
                    None => {},
                }
            },
            _ => {},
        }
        i = i + 1;
    }
    proof {
        assert(elements@.skip(elements.len() as int) =~= Seq::<NodeChild>::empty());
    }
    None
}

} // verus!
