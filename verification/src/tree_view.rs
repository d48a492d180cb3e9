//! What the signal tree view decides: which nodes are listed, which are drawn
//! as leaves, which match the search, and what a click asks for.
use crate::text::{
    contains_str, has_substring, regex_capture, regex_capture_group, regex_compiles, regex_valid,
};
use crate::wave::{WaveScopeInfo, WaveScopeType, WaveSignalInfo, WaveTreeNode};
use vstd::prelude::*;

verus! {

/// Options of the signal tree view.
#[derive(Debug)]
pub struct TreeView {
    pub show_tail_leaves: bool,
    pub show_leaves: bool,
    pub show_modules_only: bool,
    pub highlight_scope_id: Option<u64>,
}

impl Default for TreeView {
    fn default() -> (t: Self)
        ensures
            !t.show_tail_leaves,
            !t.show_leaves,
            t.show_modules_only,
            t.highlight_scope_id is None,
    {
        TreeView {
            show_tail_leaves: false,
            show_leaves: false,
            show_modules_only: true,
            highlight_scope_id: None,
        }
    }
}

/// What a click in the tree asks for.
#[derive(Debug)]
pub enum TreeAction {
    NoAction,
    AddSignal(WaveTreeNode),
    AddSignals(Vec<WaveTreeNode>),
    SelectScope(Vec<WaveTreeNode>),
}

/// The signals among `nodes`, in order.
pub open spec fn signals_of(nodes: Seq<WaveTreeNode>) -> Seq<WaveTreeNode>
    decreases nodes.len(),
{
    if nodes.len() == 0 {
        Seq::empty()
    } else {
        let rest = signals_of(nodes.drop_last());
        if nodes.last() is WaveVar {
            rest.push(nodes.last())
        } else {
            rest
        }
    }
}

/// Whether `text` passes the search: with `is_regex`, when `search` does not
/// compile or matches somewhere in `text`; otherwise when `text` contains it.
pub open spec fn spec_search_matches(text: Seq<char>, search: Seq<char>, is_regex: bool) -> bool {
    if is_regex {
        !regex_compiles(search) || regex_capture(search, text, 0) is Some
    } else {
        has_substring(text, search)
    }
}

/// A plain search of the tree passes exactly the texts that hold the search
/// text somewhere, at any position (every text holds the empty one).
pub proof fn lemma_plain_tree_search(text: Seq<char>, search: Seq<char>)
    ensures
        spec_search_matches(text, search, false) <==> exists|i: int|
            0 <= i && i + search.len() <= text.len() && #[trigger] text.subrange(i, i + search.len())
                == search,
        search.len() == 0 ==> spec_search_matches(text, search, false),
{
    if search.len() == 0 {
        assert(text.subrange(0int, 0int + search.len()) =~= search);
    }
}

/// Whether the text of a node passes the search.
pub fn search_matches(text: &String, search: &String, is_regex: bool) -> (r: bool)
    ensures
        r == spec_search_matches(text@, search@, is_regex),
{
    if is_regex {
        if regex_valid(search.as_str()) {
            regex_capture_group(search.as_str(), text.as_str(), 0).is_some()
        } else {
            true
        }
    } else {
        contains_str(text, search)
    }
}

/// The signals among the children of a node, in order.
pub fn child_signals(children: &Vec<WaveTreeNode>) -> (r: Vec<WaveTreeNode>)
    ensures
        r@ == signals_of(children@),
{
    let mut out: Vec<WaveTreeNode> = Vec::new();
    let mut i: usize = 0;
    while i < children.len()
        invariant
            i <= children.len(),
            out@ == signals_of(children@.take(i as int)),
        decreases children.len() - i,
    {
        assert(children@.take(i + 1).drop_last() =~= children@.take(i as int));
        match &children[i] {
            WaveTreeNode::WaveVar(v) => {
                out.push(WaveTreeNode::WaveVar(v.clone()));
            },
            _ => {},
        }
        i = i + 1;
    }
    assert(children@.take(children.len() as int) =~= children@);
    out
}

impl TreeView {
    /// Whether a node is listed: module scopes always, other scopes unless only
    /// modules are shown, signals when leaves are shown, nothing else.
    pub open spec fn spec_listed(self, node: WaveTreeNode) -> bool {
        match node {
            WaveTreeNode::WaveScope(s) => s.typ == WaveScopeType::Module || !self.show_modules_only,
            WaveTreeNode::WaveVar(_) => self.show_leaves,
            _ => false,
        }
    }

    /// A node is drawn as a leaf (not as a folding header) when none of its
    /// children is listed, or, unless tail leaves are shown, when none of its
    /// children is a scope.
    pub open spec fn spec_draw_as_leaf(self, children: Seq<WaveTreeNode>) -> bool {
        (forall|k: int| 0 <= k < children.len() ==> !self.spec_listed(#[trigger] children[k])) || (
        !self.show_tail_leaves && forall|k: int|
            0 <= k < children.len() ==> !(#[trigger] children[k] is WaveScope))
    }

    /// What the options list: with "modules only" off every scope is listed,
    /// with it on exactly the module scopes; signals are listed exactly when
    /// leaves are shown; the root is never listed.
    pub proof fn lemma_listed(self, s: WaveScopeInfo, i: WaveSignalInfo)
        ensures
            !self.show_modules_only ==> self.spec_listed(WaveTreeNode::WaveScope(s)),
            self.show_modules_only ==> (self.spec_listed(WaveTreeNode::WaveScope(s)) <==> s.typ
                == WaveScopeType::Module),
            self.spec_listed(WaveTreeNode::WaveVar(i)) == self.show_leaves,
            !self.spec_listed(WaveTreeNode::WaveRoot),
            forall|id: u64| !#[trigger] self.spec_listed(WaveTreeNode::WaveId(id)),
    {
    }

    pub fn listed(&self, node: &WaveTreeNode) -> (r: bool)
        ensures
            r == self.spec_listed(*node),
    {
        match node {
            WaveTreeNode::WaveScope(s) => match s.typ {
                WaveScopeType::Module => true,
                _ => !self.show_modules_only,
            },
            WaveTreeNode::WaveVar(_) => self.show_leaves,
            _ => false,
        }
    }

    pub fn draw_as_leaf(&self, children: &Vec<WaveTreeNode>) -> (r: bool)
        ensures
            r == self.spec_draw_as_leaf(children@),
    {
        let mut any_listed = false;
        let mut any_scope = false;
        let mut i: usize = 0;
        while i < children.len()
            invariant
                i <= children.len(),
                any_listed <==> exists|k: int| 0 <= k < i && self.spec_listed(#[trigger] children@[k]),
                any_scope <==> exists|k: int| 0 <= k < i && #[trigger] children@[k] is WaveScope,
            decreases children.len() - i,
        {
            if self.listed(&children[i]) {
                any_listed = true;
            }
            match &children[i] {
                WaveTreeNode::WaveScope(_) => {
                    any_scope = true;
                },
                _ => {},
            }
            i = i + 1;
        }
        !any_listed || (!self.show_tail_leaves && !any_scope)
    }

    /// Whether a node drawn as a leaf is shown: it is listed and its text passes
    /// the search.
    pub fn leaf_shown(&self, node: &WaveTreeNode, search: &String, is_regex: bool) -> (r: bool)
        ensures
            r == (spec_search_matches(node.spec_to_string(), search@, is_regex) && self.spec_listed(
                *node,
            )),
    {
        let text = node.to_string();
        let matched = search_matches(&text, search, is_regex);
        let listed = self.listed(node);
        matched && listed
    }

    /// A primary click on a scope drawn as a leaf: the scope becomes the
    /// highlighted one; a double click asks to add its signals, a single one to
    /// select them.
    pub fn click_scope(&mut self, id: u64, double_clicked: bool, children: &Vec<WaveTreeNode>) -> (r:
        TreeAction)
        ensures
            final(self).highlight_scope_id == Some(id),
            final(self).show_leaves == old(self).show_leaves,
            final(self).show_tail_leaves == old(self).show_tail_leaves,
            final(self).show_modules_only == old(self).show_modules_only,
            double_clicked ==> (r matches TreeAction::AddSignals(v) && v@ == signals_of(children@)),
            !double_clicked ==> (r matches TreeAction::SelectScope(v) && v@ == signals_of(children@)),
    {
        self.highlight_scope_id = Some(id);
        let signals = child_signals(children);
        if double_clicked {
            TreeAction::AddSignals(signals)
        } else {
            TreeAction::SelectScope(signals)
        }
    }
}

/// A node of the signal tree with its children, as the view walks it.
#[derive(Debug)]
pub struct TreeNodeView {
    pub data: WaveTreeNode,
    pub children: Vec<TreeNodeView>,
}

pub open spec fn node_size(n: TreeNodeView) -> nat
    decreases n,
{
    1 + nodes_size(n.children@)
}

pub open spec fn nodes_size(s: Seq<TreeNodeView>) -> nat
    decreases s,
{
    if s.len() == 0 {
        0
    } else {
        nodes_size(s.drop_last()) + node_size(s.last())
    }
}

/// The data of a node's children, in order.
pub open spec fn child_data(n: TreeNodeView) -> Seq<WaveTreeNode> {
    n.children@.map_values(|c: TreeNodeView| c.data)
}

/// The children of a list that are scopes, in order.
pub open spec fn scope_nodes(s: Seq<TreeNodeView>) -> Seq<TreeNodeView>
    decreases s.len(),
{
    if s.len() == 0 {
        Seq::empty()
    } else if s.last().data is WaveScope {
        scope_nodes(s.drop_last()).push(s.last())
    } else {
        scope_nodes(s.drop_last())
    }
}

pub proof fn lemma_nodes_size_concat(a: Seq<TreeNodeView>, b: Seq<TreeNodeView>)
    ensures
        nodes_size(a + b) == nodes_size(a) + nodes_size(b),
    decreases b.len(),
{
    if b.len() == 0 {
        assert(a + b =~= a);
    } else {
        lemma_nodes_size_concat(a, b.drop_last());
        assert((a + b).drop_last() =~= a + b.drop_last());
    }
}

pub proof fn lemma_scope_nodes_size(s: Seq<TreeNodeView>)
    ensures
        nodes_size(scope_nodes(s)) <= nodes_size(s),
    decreases s.len(),
{
    if s.len() > 0 {
        lemma_scope_nodes_size(s.drop_last());
        if s.last().data is WaveScope {
            assert(scope_nodes(s).drop_last() =~= scope_nodes(s.drop_last()));
        }
    }
}

/// The signals met by walking scopes from the last one of `stack`: the signals
/// among its children, then the walk with its child scopes put on the stack.
pub open spec fn walk_signals(stack: Seq<TreeNodeView>) -> Seq<WaveTreeNode>
    decreases nodes_size(stack),
{
    if stack.len() == 0 {
        Seq::empty()
    } else {
        let top = stack.last();
        proof {
            lemma_scope_nodes_size(top.children@);
            lemma_nodes_size_concat(stack.drop_last(), scope_nodes(top.children@));
            assert(nodes_size(stack) == nodes_size(stack.drop_last()) + node_size(top));
            assert(node_size(top) == 1 + nodes_size(top.children@));
        }
        signals_of(child_data(top)) + walk_signals(stack.drop_last() + scope_nodes(top.children@))
    }
}

pub open spec fn refs_nodes<'a>(s: Seq<&'a TreeNodeView>) -> Seq<TreeNodeView> {
    s.map_values(|r: &'a TreeNodeView| *r)
}

/// The signals of a scope and of all scopes below it, in the order of a walk
/// that takes the scopes last found first.
pub fn recurse_child_signals(tree: &TreeNodeView) -> (r: Vec<WaveTreeNode>)
    ensures
        r@ == walk_signals(seq![*tree]),
{
    let mut stack: Vec<&TreeNodeView> = Vec::new();
    stack.push(tree);
    let mut out: Vec<WaveTreeNode> = Vec::new();
    assert(refs_nodes(stack@) =~= seq![*tree]);
    assert(out@ + walk_signals(refs_nodes(stack@)) =~= walk_signals(seq![*tree]));
    while stack.len() > 0
        invariant
            out@ + walk_signals(refs_nodes(stack@)) == walk_signals(seq![*tree]),
        decreases nodes_size(refs_nodes(stack@)),
    {
        let ghost before = refs_nodes(stack@);
        let top: &TreeNodeView = stack.pop().unwrap();
        assert(refs_nodes(stack@) =~= before.drop_last());
        assert(*top == before.last());
        let mut data: Vec<WaveTreeNode> = Vec::new();
        let mut i: usize = 0;
        while i < top.children.len()
            invariant
                i <= top.children@.len(),
                data@ == child_data(*top).take(i as int),
            decreases top.children.len() - i,
        {
            data.push(top.children[i].data.clone());
            assert(data@ =~= child_data(*top).take(i + 1));
            i = i + 1;
        }
        assert(child_data(*top).take(top.children@.len() as int) =~= child_data(*top));
        let signals = child_signals(&data);
        let ghost out_before = out@;
        let mut j: usize = 0;
        while j < signals.len()
            invariant
                j <= signals@.len(),
                out@ == out_before + signals@.take(j as int),
            decreases signals.len() - j,
        {
            out.push(signals[j].clone());
            assert(out@ =~= out_before + signals@.take(j + 1));
            j = j + 1;
        }
        assert(signals@.take(signals@.len() as int) =~= signals@);
        let ghost base = refs_nodes(stack@);
        let mut k: usize = 0;
        assert(top.children@.take(0) =~= Seq::<TreeNodeView>::empty());
        assert(base + scope_nodes(top.children@.take(0)) =~= base);
        while k < top.children.len()
            invariant
                k <= top.children@.len(),
                refs_nodes(stack@) == base + scope_nodes(top.children@.take(k as int)),
            decreases top.children.len() - k,
        {
            let child: &TreeNodeView = &top.children[k];
            assert(top.children@.take(k + 1).drop_last() =~= top.children@.take(k as int));
            assert(top.children@.take(k + 1).last() == *child);
            match child.data {
                WaveTreeNode::WaveScope(_) => {
                    let ghost old_stack = stack@;
                    stack.push(child);
                    assert(stack@ == old_stack.push(child));
                    assert(refs_nodes(stack@) =~= refs_nodes(old_stack).push(*child));
                    assert(scope_nodes(top.children@.take(k + 1)) == scope_nodes(
                        top.children@.take(k as int),
                    ).push(*child));
                    assert(refs_nodes(stack@) =~= base + scope_nodes(top.children@.take(k + 1)));
                },
                _ => {
                    assert(refs_nodes(stack@) =~= base + scope_nodes(top.children@.take(k + 1)));
                },
            }
            k = k + 1;
        }
        assert(top.children@.take(top.children@.len() as int) =~= top.children@);
        proof {
            lemma_scope_nodes_size(top.children@);
            lemma_nodes_size_concat(before.drop_last(), scope_nodes(top.children@));
            assert(nodes_size(before) == nodes_size(before.drop_last()) + node_size(*top));
            assert(node_size(*top) == 1 + nodes_size(top.children@));
        }
        assert(out@ + walk_signals(refs_nodes(stack@)) =~= walk_signals(seq![*tree]));
    }
    out
}

} // verus!
