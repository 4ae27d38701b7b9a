//! A parsed page as an arena of nodes in document order, each pointing at its
//! parent by index.
use vstd::prelude::*;
use vstd::string::StrSliceExecFns;
use crate::text::{copy_range, is_blank, is_blank_text, views};

verus! {

/// One element or text node. An element carries its tag name; a text node its
/// characters.
pub struct Node {
    pub tag: Vec<char>,
    pub text: Vec<char>,
    pub is_text: bool,
    pub parent: Option<usize>,
}

/// Nodes in document order. A parent always stands before its children and is
/// an element.
pub struct Document {
    pub nodes: Vec<Node>,
}

pub open spec fn parent_ok(nodes: Seq<Node>, i: int) -> bool {
    match nodes[i].parent {
        Some(p) => p < i && !nodes[p as int].is_text,
        None => true,
    }
}

/// `parent` names an element of `nodes`, or is `None`.
pub open spec fn parent_allowed(nodes: Seq<Node>, parent: Option<usize>) -> bool {
    match parent {
        Some(p) => p < nodes.len() && !nodes[p as int].is_text,
        None => true,
    }
}

pub open spec fn measure(p: Option<usize>) -> int {
    match p {
        Some(q) => q + 1,
        None => 0,
    }
}

/// Going up from `p` (inclusive), the ancestors hold the tags of `sel` in
/// order, the last tag closest; other elements may stand between them.
pub open spec fn chain_above(nodes: Seq<Node>, p: Option<usize>, sel: Seq<Seq<char>>) -> bool
    decreases measure(p),
{
    if sel.len() == 0 {
        true
    } else {
        match p {
            None => false,
            Some(q) => {
                if q < nodes.len() {
                    let rest = if !nodes[q as int].is_text && nodes[q as int].tag@ == sel.last() {
                        sel.drop_last()
                    } else {
                        sel
                    };
                    match nodes[q as int].parent {
                        Some(u) => if u < q {
                            chain_above(nodes, Some(u), rest)
                        } else {
                            false
                        },
                        None => rest.len() == 0,
                    }
                } else {
                    false
                }
            },
        }
    }
}

/// `p` is `t` or lies under `t`.
pub open spec fn within(nodes: Seq<Node>, p: Option<usize>, t: int) -> bool
    decreases measure(p),
{
    match p {
        None => false,
        Some(q) => q == t || (q < nodes.len() && match nodes[q as int].parent {
            Some(u) => u < q && within(nodes, Some(u), t),
            None => false,
        }),
    }
}

/// Node `j` lies strictly under node `t`.
pub open spec fn below(nodes: Seq<Node>, j: int, t: int) -> bool {
    within(nodes, nodes[j].parent, t)
}

/// The non-blank text nodes under `t` among the first `n` nodes, in order.
pub open spec fn texts_upto(nodes: Seq<Node>, t: int, n: int) -> Seq<Seq<char>>
    decreases n,
{
    if n <= 0 {
        Seq::empty()
    } else {
        let rest = texts_upto(nodes, t, n - 1);
        let nd = nodes[n - 1];
        if nd.is_text && !is_blank(nd.text@) && below(nodes, n - 1, t) {
            rest.push(nd.text@)
        } else {
            rest
        }
    }
}

/// The non-blank text nodes under `t`, in document order.
pub open spec fn texts_of(nodes: Seq<Node>, t: int) -> Seq<Seq<char>> {
    texts_upto(nodes, t, nodes.len() as int)
}

impl Document {
    pub open spec fn wf(&self) -> bool {
        forall|i: int| 0 <= i < self.nodes@.len() ==> #[trigger] parent_ok(self.nodes@, i)
    }

    pub fn new() -> (r: Document)
        ensures
            r.wf(),
            r.nodes@.len() == 0,
    {
        Document { nodes: Vec::new() }
    }

    fn parent_valid(&self, parent: Option<usize>) -> (r: bool)
        ensures
            r == parent_allowed(self.nodes@, parent),
    {
        match parent {
            Some(p) => p < self.nodes.len() && !self.nodes[p].is_text,
            None => true,
        }
    }

    /// Appends a node under `parent`; `None`, with nothing changed, when
    /// `parent` is not an element already in the document.
    fn add_node(&mut self, tag: Vec<char>, text: Vec<char>, is_text: bool, parent: Option<usize>) -> (r: Option<usize>)
        requires
            old(self).wf(),
        ensures
            final(self).wf(),
            r is None <==> !parent_allowed(old(self).nodes@, parent),
            r is None ==> *final(self) == *old(self),
            r is Some ==> r->0 == old(self).nodes@.len() && final(self).nodes@ == old(self).nodes@.push(
                Node { tag, text, is_text, parent },
            ),
    {
        if !self.parent_valid(parent) {
            return None;
        }
        let i = self.nodes.len();
        self.nodes.push(Node { tag, text, is_text, parent });
        proof {
            assert forall|k: int| 0 <= k < self.nodes@.len() implies #[trigger] parent_ok(
                self.nodes@,
                k,
            ) by {
                if k < i {
                    assert(parent_ok(old(self).nodes@, k));
                }
            }
        }
        Some(i)
    }

    /// Appends an element named `tag` under `parent` and returns its index;
    /// `None`, with nothing changed, when `parent` is not an element already in
    /// the document.
    pub fn add_element(&mut self, tag: &str, parent: Option<usize>) -> (r: Option<usize>)
        requires
            old(self).wf(),
        ensures
            final(self).wf(),
            r is None <==> !parent_allowed(old(self).nodes@, parent),
            r is None ==> *final(self) == *old(self),
            r is Some ==> {
                &&& r->0 == old(self).nodes@.len()
                &&& final(self).nodes@.len() == old(self).nodes@.len() + 1
                &&& final(self).nodes@.subrange(0, r->0 as int) == old(self).nodes@
                &&& final(self).nodes@[r->0 as int].tag@ == tag@
                &&& final(self).nodes@[r->0 as int].text@.len() == 0
                &&& !final(self).nodes@[r->0 as int].is_text
                &&& final(self).nodes@[r->0 as int].parent == parent
            },
    {
        let r = self.add_node(chars_of(tag), Vec::new(), false, parent);
        proof {
            if r is Some {
                assert(self.nodes@.subrange(0, r->0 as int) == old(self).nodes@);
            }
        }
        r
    }

    /// Appends a text node holding `text` under `parent` and returns its index;
    /// `None`, with nothing changed, when `parent` is not an element already in
    /// the document.
    pub fn add_text(&mut self, text: &str, parent: Option<usize>) -> (r: Option<usize>)
        requires
            old(self).wf(),
        ensures
            final(self).wf(),
            r is None <==> !parent_allowed(old(self).nodes@, parent),
            r is None ==> *final(self) == *old(self),
            r is Some ==> {
                &&& r->0 == old(self).nodes@.len()
                &&& final(self).nodes@.len() == old(self).nodes@.len() + 1
                &&& final(self).nodes@.subrange(0, r->0 as int) == old(self).nodes@
                &&& final(self).nodes@[r->0 as int].tag@.len() == 0
                &&& final(self).nodes@[r->0 as int].text@ == text@
                &&& final(self).nodes@[r->0 as int].is_text
                &&& final(self).nodes@[r->0 as int].parent == parent
            },
    {
        let r = self.add_node(Vec::new(), chars_of(text), true, parent);
        proof {
            if r is Some {
                assert(self.nodes@.subrange(0, r->0 as int) == old(self).nodes@);
            }
        }
        r
    }
}

/// Same characters in the same order.
pub fn same_chars(a: &Vec<char>, b: &Vec<char>) -> (r: bool)
    ensures
        r == (a@ == b@),
{
    if a.len() != b.len() {
        return false;
    }
    let mut i: usize = 0;
    while i < a.len()
        invariant
            a.len() == b.len(),
            i <= a.len(),
            forall|k: int| 0 <= k < i ==> a@[k] == b@[k],
        decreases a.len() - i,
    {
        if a[i] != b[i] {
            return false;
        }
        i = i + 1;
    }
    assert(a@ == b@);
    true
}

pub open spec fn in_range(nodes: Seq<Node>, p: Option<usize>) -> bool {
    match p {
        Some(q) => q < nodes.len(),
        None => true,
    }
}

impl Document {
    /// Whether the ancestors from `p` up hold the tags of `sel` (see `chain_above`).
    pub fn chain_matches(&self, p: Option<usize>, sel: &Vec<Vec<char>>) -> (r: bool)
        requires
            self.wf(),
            in_range(self.nodes@, p),
        ensures
            r == chain_above(self.nodes@, p, views(sel@)),
    {
        let ghost nodes = self.nodes@;
        let ghost s = views(sel@);
        let mut cur = p;
        let mut k: usize = sel.len();
        assert(s.subrange(0, k as int) == s);
        loop
            invariant
                self.wf(),
                nodes == self.nodes@,
                s == views(sel@),
                k <= sel.len(),
                in_range(nodes, cur),
                chain_above(nodes, p, s) == chain_above(nodes, cur, s.subrange(0, k as int)),
            decreases measure(cur),
        {
            if k == 0 {
                return true;
            }
            match cur {
                None => {
                    return false;
                },
                Some(q) => {
                    let node = &self.nodes[q];
                    let ghost sub = s.subrange(0, k as int);
                    assert(sub.drop_last() == s.subrange(0, k - 1));
                    assert(sub.last() == sel@[k - 1]@);
                    let next_k = if !node.is_text && same_chars(&node.tag, &sel[k - 1]) {
                        k - 1
                    } else {
                        k
                    };
                    assert(parent_ok(nodes, q as int));
                    match node.parent {
                        Some(u) => {
                            cur = Some(u);
                            k = next_k;
                        },
                        None => {
                            return next_k == 0;
                        },
                    }
                },
            }
        }
    }

    /// Whether `p` is `t` or lies under it.
    pub fn is_within(&self, p: Option<usize>, t: usize) -> (r: bool)
        requires
            self.wf(),
            in_range(self.nodes@, p),
        ensures
            r == within(self.nodes@, p, t as int),
    {
        let ghost nodes = self.nodes@;
        let mut cur = p;
        loop
            invariant
                self.wf(),
                nodes == self.nodes@,
                in_range(nodes, cur),
                within(nodes, p, t as int) == within(nodes, cur, t as int),
            decreases measure(cur),
        {
            match cur {
                None => {
                    return false;
                },
                Some(q) => {
                    if q == t {
                        return true;
                    }
                    assert(parent_ok(nodes, q as int));
                    match self.nodes[q].parent {
                        Some(u) => {
                            cur = Some(u);
                        },
                        None => {
                            return false;
                        },
                    }
                },
            }
        }
    }

    /// Whether node `j` lies strictly under node `t`.
    pub fn is_below(&self, j: usize, t: usize) -> (r: bool)
        requires
            self.wf(),
            j < self.nodes@.len(),
        ensures
            r == below(self.nodes@, j as int, t as int),
    {
        assert(parent_ok(self.nodes@, j as int));
        self.is_within(self.nodes[j].parent, t)
    }

    /// The non-blank text nodes under `t`, in document order.
    pub fn texts_under(&self, t: usize) -> (r: Vec<Vec<char>>)
        requires
            self.wf(),
        ensures
            views(r@) == texts_of(self.nodes@, t as int),
    {
        let mut out: Vec<Vec<char>> = Vec::new();
        let mut j: usize = 0;
        while j < self.nodes.len()
            invariant
                self.wf(),
                j <= self.nodes@.len(),
                views(out@) == texts_upto(self.nodes@, t as int, j as int),
            decreases self.nodes@.len() - j,
        {
            let node = &self.nodes[j];
            if node.is_text && !is_blank_text(&node.text) && self.is_below(j, t) {
                let c = copy_range(&node.text, 0, node.text.len());
                assert(node.text@.subrange(0, node.text@.len() as int) == node.text@);
                assert(views(out@.push(c)) == views(out@).push(c@));
                out.push(c);
            }
            j = j + 1;
        }
        out
    }
}

/// The characters of `s`.
pub fn chars_of(s: &str) -> (r: Vec<char>)
    ensures
        r@ == s@,
{
    let n = s.unicode_len();
    let mut out: Vec<char> = Vec::new();
    let mut i: usize = 0;
    while i < n
        invariant
            n == s@.len(),
            i <= n,
            out@ == s@.subrange(0, i as int),
        decreases n - i,
    {
        out.push(s.get_char(i));
        i = i + 1;
        assert(out@ == s@.subrange(0, i as int));
    }
    assert(s@.subrange(0, n as int) == s@);
    out
}

} // verus!
