//! The scope tree of a VCD header: scopes of the same name on one level are
//! merged, every level lists its scopes before its variables.
use crate::wave::vcd_parser::{VcdHeader, VcdScope, VcdScopeItem, VcdVar, var_signal_info};
use crate::wave::{WaveError, WaveScopeInfo, WaveSignalInfo, WaveTreeNode};
use std::collections::hash_map::DefaultHasher;
use std::hash::Hasher;
use trees::Tree;
use vstd::bytes::{spec_u64_to_le_bytes, u64_to_le_bytes};
use vstd::prelude::*;
use vstd::std_specs::hash::DefaultHasherAdditionalSpecFns;
use vstd::utf8::encode_utf8;

verus! {

/// An item of a level after merging: a scope, standing for all scopes of its
/// name on that level, with all their children in order; or a variable.
pub enum MergedItem {
    Scope(VcdScope, Seq<VcdScopeItem>),
    Var(VcdVar),
}

/// The name an item is looked up by when merging: a scope's identifier; the
/// empty name for anything else.
pub open spec fn merged_key(m: MergedItem) -> Seq<char> {
    match m {
        MergedItem::Scope(s, _) => s.identifier@,
        MergedItem::Var(_) => Seq::empty(),
    }
}

/// Index of the first item of `r` whose name is `key`, or -1.
pub open spec fn find_key(r: Seq<MergedItem>, key: Seq<char>) -> int
    decreases r.len(),
{
    if r.len() == 0 {
        -1
    } else if merged_key(r[0]) == key {
        0
    } else {
        let k = find_key(r.drop_first(), key);
        if k < 0 {
            -1
        } else {
            k + 1
        }
    }
}

/// One merging step: a scope joins the first item of its name (when that item
/// is a scope, its children are appended; when it is a variable, the scope is
/// dropped) or is appended; a variable is appended; a comment is dropped.
pub open spec fn merge_one(r: Seq<MergedItem>, item: VcdScopeItem) -> Seq<MergedItem> {
    match item {
        VcdScopeItem::Scope(s) => {
            let k = find_key(r, s.identifier@);
            if k < 0 {
                r.push(MergedItem::Scope(s, s.children@))
            } else {
                match r[k] {
                    MergedItem::Scope(first, children) => r.update(
                        k,
                        MergedItem::Scope(first, children + s.children@),
                    ),
                    MergedItem::Var(_) => r,
                }
            }
        },
        VcdScopeItem::Var(v) => r.push(MergedItem::Var(v)),
        VcdScopeItem::Comment(_) => r,
    }
}

/// The items of one level after merging, in order of first appearance.
pub open spec fn merge_items(items: Seq<VcdScopeItem>) -> Seq<MergedItem>
    decreases items.len(),
{
    if items.len() == 0 {
        Seq::empty()
    } else {
        merge_one(merge_items(items.drop_last()), items.last())
    }
}

/// Number of items, nested ones included.
pub open spec fn items_size(items: Seq<VcdScopeItem>) -> nat
    decreases items,
{
    if items.len() == 0 {
        0
    } else {
        items_size(items.drop_last()) + item_size(items.last())
    }
}

pub open spec fn item_size(item: VcdScopeItem) -> nat
    decreases item,
{
    match item {
        VcdScopeItem::Scope(s) => 1 + items_size(s.children@),
        _ => 1,
    }
}

pub open spec fn merged_size(m: MergedItem) -> nat {
    match m {
        MergedItem::Scope(_, children) => 1 + items_size(children),
        MergedItem::Var(_) => 1,
    }
}

pub open spec fn merged_seq_size(r: Seq<MergedItem>) -> nat
    decreases r.len(),
{
    if r.len() == 0 {
        0
    } else {
        merged_seq_size(r.drop_last()) + merged_size(r.last())
    }
}

pub proof fn lemma_items_size_concat(a: Seq<VcdScopeItem>, b: Seq<VcdScopeItem>)
    ensures
        items_size(a + b) == items_size(a) + items_size(b),
    decreases b.len(),
{
    if b.len() == 0 {
        assert(a + b =~= a);
    } else {
        lemma_items_size_concat(a, b.drop_last());
        assert((a + b).drop_last() =~= a + b.drop_last());
        assert((a + b).last() == b.last());
    }
}

pub proof fn lemma_merged_seq_size_update(r: Seq<MergedItem>, k: int, m: MergedItem)
    requires
        0 <= k < r.len(),
    ensures
        merged_seq_size(r.update(k, m)) + merged_size(r[k]) == merged_seq_size(r) + merged_size(m),
    decreases r.len(),
{
    if k == r.len() - 1 {
        assert(r.update(k, m).drop_last() =~= r.drop_last());
    } else {
        lemma_merged_seq_size_update(r.drop_last(), k, m);
        assert(r.update(k, m).drop_last() =~= r.drop_last().update(k, m));
    }
}

pub proof fn lemma_find_key(r: Seq<MergedItem>, key: Seq<char>)
    ensures
        -1 <= find_key(r, key) < r.len(),
        find_key(r, key) >= 0 ==> merged_key(r[find_key(r, key)]) == key,
        find_key(r, key) >= 0 ==> forall|j: int|
            0 <= j < find_key(r, key) ==> merged_key(#[trigger] r[j]) != key,
        find_key(r, key) < 0 ==> forall|j: int| 0 <= j < r.len() ==> merged_key(#[trigger] r[j]) != key,
    decreases r.len(),
{
    if r.len() > 0 && merged_key(r[0]) != key {
        let t = r.drop_first();
        lemma_find_key(t, key);
        assert forall|j: int| 0 <= j < r.len() && j < find_key(r, key) || find_key(r, key) < 0 && 0 <= j < r.len()
            implies merged_key(#[trigger] r[j]) != key by {
            if j > 0 {
                assert(r[j] == t[j - 1]);
            }
        }
    }
}

/// Merging never makes a level bigger.
pub proof fn lemma_merge_size(items: Seq<VcdScopeItem>)
    ensures
        merged_seq_size(merge_items(items)) <= items_size(items),
    decreases items.len(),
{
    if items.len() > 0 {
        let r = merge_items(items.drop_last());
        lemma_merge_size(items.drop_last());
        lemma_find_key_size(r, items.last());
    }
}

proof fn lemma_find_key_size(r: Seq<MergedItem>, item: VcdScopeItem)
    ensures
        merged_seq_size(merge_one(r, item)) <= merged_seq_size(r) + item_size(item),
{
    match item {
        VcdScopeItem::Scope(s) => {
            let k = find_key(r, s.identifier@);
            lemma_find_key(r, s.identifier@);
            if k < 0 {
                assert(r.push(MergedItem::Scope(s, s.children@)).drop_last() =~= r);
            } else {
                match r[k] {
                    MergedItem::Scope(first, children) => {
                        lemma_merged_seq_size_update(
                            r,
                            k,
                            MergedItem::Scope(first, children + s.children@),
                        );
                        lemma_items_size_concat(children, s.children@);
                    },
                    MergedItem::Var(_) => {},
                }
            }
        },
        VcdScopeItem::Var(v) => {
            assert(r.push(MergedItem::Var(v)).drop_last() =~= r);
        },
        VcdScopeItem::Comment(_) => {},
    }
}

/// No merged scope shares its name with an item before it on its level: the
/// scopes of one name end up in a single entry.
pub open spec fn scope_names_unique(r: Seq<MergedItem>) -> bool {
    forall|i: int, j: int|
        0 <= i < j < r.len() && r[j] is Scope ==> merged_key(#[trigger] r[i]) != merged_key(
            #[trigger] r[j],
        )
}

/// After merging, the scopes of a level have distinct names, and none shares
/// its name with a variable listed before it.
pub proof fn lemma_merge_names_unique(items: Seq<VcdScopeItem>)
    ensures
        scope_names_unique(merge_items(items)),
    decreases items.len(),
{
    if items.len() > 0 {
        let r = merge_items(items.drop_last());
        lemma_merge_names_unique(items.drop_last());
        let item = items.last();
        match item {
            VcdScopeItem::Scope(s) => {
                let k = find_key(r, s.identifier@);
                lemma_find_key(r, s.identifier@);
                if k < 0 {
                    let n = r.push(MergedItem::Scope(s, s.children@));
                    assert forall|i: int, j: int|
                        0 <= i < j < n.len() && n[j] is Scope implies merged_key(#[trigger] n[i])
                        != merged_key(#[trigger] n[j]) by {
                        if j < r.len() {
                            assert(n[i] == r[i] && n[j] == r[j]);
                        } else {
                            assert(n[i] == r[i]);
                        }
                    }
                } else {
                    match r[k] {
                        MergedItem::Scope(first, children) => {
                            let n = r.update(k, MergedItem::Scope(first, children + s.children@));
                            assert forall|i: int| 0 <= i < n.len() implies merged_key(#[trigger] n[i])
                                == merged_key(r[i]) && (n[i] is Scope <==> r[i] is Scope) by {}
                            assert forall|i: int, j: int|
                                0 <= i < j < n.len() && n[j] is Scope implies merged_key(
                                #[trigger] n[i],
                            ) != merged_key(#[trigger] n[j]) by {
                                assert(merged_key(n[i]) == merged_key(r[i]));
                                assert(merged_key(n[j]) == merged_key(r[j]));
                                assert(r[j] is Scope);
                            }
                        },
                        MergedItem::Var(_) => {},
                    }
                }
            },
            VcdScopeItem::Var(v) => {
                let n = r.push(MergedItem::Var(v));
                assert forall|i: int, j: int|
                    0 <= i < j < n.len() && n[j] is Scope implies merged_key(#[trigger] n[i])
                    != merged_key(#[trigger] n[j]) by {
                    assert(j < r.len());
                    assert(n[i] == r[i] && n[j] == r[j]);
                }
            },
            VcdScopeItem::Comment(_) => {},
        }
    }
}

pub proof fn lemma_merged_size_elem(r: Seq<MergedItem>, i: int)
    requires
        0 <= i < r.len(),
    ensures
        merged_size(r[i]) <= merged_seq_size(r),
    decreases r.len(),
{
    if i < r.len() - 1 {
        lemma_merged_size_elem(r.drop_last(), i);
    }
}

/// A tree of the trees crate; what it holds is told by [`tree_nodes`].
#[verifier::external_type_specification]
#[verifier::external_body]
#[verifier::reject_recursive_types(T)]
pub struct ExTree<T>(Tree<T>);

/// The nodes of a tree of the trees crate in pre-order (a node, then the trees
/// of its children in order), each with its depth below the root.
pub uninterp spec fn tree_nodes(t: Tree<WaveTreeNode>) -> Seq<(nat, WaveTreeNode)>;

/// The same nodes, one level deeper.
pub open spec fn deeper(s: Seq<(nat, WaveTreeNode)>) -> Seq<(nat, WaveTreeNode)> {
    s.map_values(|e: (nat, WaveTreeNode)| (e.0 + 1, e.1))
}

/// Calls trees `Tree::new`: a tree of the root alone.
#[verifier::external_body]
fn tree_new(data: WaveTreeNode) -> (t: Tree<WaveTreeNode>)
    ensures
        tree_nodes(t) == seq![(0nat, data)],
{
    Tree::new(data)
}

/// Calls trees `Tree::push_back`: `child` becomes the last child of the root.
#[verifier::external_body]
fn tree_push_back(t: &mut Tree<WaveTreeNode>, child: Tree<WaveTreeNode>)
    ensures
        tree_nodes(*final(t)) == tree_nodes(*old(t)) + deeper(tree_nodes(child)),
{
    t.push_back(child)
}

/// The id of a scope: what the standard hasher gives for the scope's name (its
/// UTF-8 bytes and the byte 0xff, as a string is hashed) followed by the id
/// handed down from the level above (its eight bytes, least significant first).
pub open spec fn scope_hash(name: Seq<char>, parent: u64) -> u64 {
    DefaultHasher::spec_finish(seq![encode_utf8(name), seq![0xffu8], spec_u64_to_le_bytes(parent)])
}

/// The id that a scope hands down to its children: its own id plus one,
/// wrapping around.
pub open spec fn child_scope_id(id: u64) -> u64 {
    if id == u64::MAX {
        0
    } else {
        (id + 1) as u64
    }
}

pub open spec fn scope_node(s: VcdScope, id: u64) -> WaveTreeNode {
    WaveTreeNode::WaveScope(WaveScopeInfo { id, name: s.identifier, typ: s.scope_type })
}

/// The subtrees of one merged level, pushed under a node: the scopes in order,
/// then the variables in order; depths are counted from the subtrees' roots.
pub open spec fn level_nodes(merged: Seq<MergedItem>, parent: u64) -> Seq<(nat, WaveTreeNode)>
    decreases merged_seq_size(merged), 2nat,
{
    scopes_nodes(merged, parent) + vars_nodes(merged)
}

pub open spec fn scopes_nodes(merged: Seq<MergedItem>, parent: u64) -> Seq<(nat, WaveTreeNode)>
    decreases merged_seq_size(merged), 1nat,
{
    if merged.len() == 0 {
        Seq::empty()
    } else {
        match merged.last() {
            MergedItem::Scope(s, children) => scopes_nodes(merged.drop_last(), parent)
                + scope_subtree(s, children, parent),
            MergedItem::Var(_) => scopes_nodes(merged.drop_last(), parent),
        }
    }
}

/// A scope's subtree: its node, then the subtrees of its merged children.
pub open spec fn scope_subtree(s: VcdScope, children: Seq<VcdScopeItem>, parent: u64) -> Seq<
    (nat, WaveTreeNode),
>
    decreases 1 + items_size(children), 0nat,
{
    let id = scope_hash(s.identifier@, parent);
    proof {
        lemma_merge_size(children);
    }
    seq![(0nat, scope_node(s, id))] + deeper(
        level_nodes(merge_items(children), child_scope_id(id)),
    )
}

pub open spec fn vars_nodes(merged: Seq<MergedItem>) -> Seq<(nat, WaveTreeNode)>
    decreases merged.len(),
{
    if merged.len() == 0 {
        Seq::empty()
    } else {
        match merged.last() {
            MergedItem::Var(v) => vars_nodes(merged.drop_last()).push(
                (0nat, WaveTreeNode::WaveVar(var_signal_info(v))),
            ),
            MergedItem::Scope(_, _) => vars_nodes(merged.drop_last()),
        }
    }
}

/// A merged item that borrows from the header: a scope (the first of its name)
/// with the children of all scopes of its name, or a variable.
pub enum MergedRef<'a> {
    Scope(&'a VcdScope, Vec<&'a VcdScopeItem>),
    Var(&'a VcdVar),
}

pub open spec fn refs_view<'a>(s: Seq<&'a VcdScopeItem>) -> Seq<VcdScopeItem> {
    s.map_values(|r: &'a VcdScopeItem| *r)
}

pub open spec fn merged_ref_view<'a>(m: MergedRef<'a>) -> MergedItem {
    match m {
        MergedRef::Scope(s, children) => MergedItem::Scope(*s, refs_view(children@)),
        MergedRef::Var(v) => MergedItem::Var(*v),
    }
}

pub open spec fn merged_refs_view<'a>(s: Seq<MergedRef<'a>>) -> Seq<MergedItem> {
    s.map_values(|m: MergedRef<'a>| merged_ref_view(m))
}

/// Position of the first merged item whose name is `key`.
fn find_merged<'a>(results: &Vec<MergedRef<'a>>, key: &String) -> (k: Option<usize>)
    ensures
        match k {
            Some(j) => j == find_key(merged_refs_view(results@), key@),
            None => find_key(merged_refs_view(results@), key@) < 0,
        },
{
    let ghost view = merged_refs_view(results@);
    proof {
        lemma_find_key(view, key@);
    }
    let mut j: usize = 0;
    while j < results.len()
        invariant
            j <= results.len(),
            view == merged_refs_view(results@),
            forall|jj: int| 0 <= jj < j ==> merged_key(#[trigger] view[jj]) != key@,
        decreases results.len() - j,
    {
        assert(view[j as int] == merged_ref_view(results@[j as int]));
        let hit = match &results[j] {
            MergedRef::Scope(scope, _) => scope.identifier == *key,
            MergedRef::Var(_) => {
                let empty = key.as_str().is_empty();
                assert(empty ==> key@ =~= Seq::<char>::empty());
                empty
            },
        };
        assert(hit == (merged_key(view[j as int]) == key@));
        if hit {
            proof {
                lemma_find_key(view, key@);
                let f = find_key(view, key@);
                if f < 0 {
                    assert(merged_key(view[j as int]) != key@);
                } else if f < j {
                    assert(merged_key(view[f]) != key@);
                } else if f > j {
                    assert(merged_key(view[j as int]) != key@);
                }
            }
            return Some(j);
        }
        j = j + 1;
    }
    None
}

/// Merges the scopes of one level that share a name, in order of first
/// appearance; comments are dropped.
fn merge_scope_items<'a>(items: &Vec<&'a VcdScopeItem>) -> (r: Vec<MergedRef<'a>>)
    ensures
        merged_refs_view(r@) == merge_items(refs_view(items@)),
{
    let mut results: Vec<MergedRef<'a>> = Vec::new();
    let mut i: usize = 0;
    assert(refs_view(items@).take(0) =~= Seq::<VcdScopeItem>::empty());
    assert(merged_refs_view(results@) =~= Seq::<MergedItem>::empty());
    while i < items.len()
        invariant
            i <= items.len(),
            merged_refs_view(results@) == merge_items(refs_view(items@).take(i as int)),
        decreases items.len() - i,
    {
        let item: &'a VcdScopeItem = items[i];
        let ghost before = merged_refs_view(results@);
        assert(refs_view(items@).take(i + 1).drop_last() =~= refs_view(items@).take(i as int));
        assert(refs_view(items@).take(i + 1).last() == *item);
        match item {
            VcdScopeItem::Scope(scope) => {
                proof {
                    lemma_find_key(before, scope.identifier@);
                }
                let found = find_merged(&results, &scope.identifier);
                match found {
                    Some(k) => {
                        let entry = results.remove(k);
                        assert(before[k as int] == merged_ref_view(entry));
                        match entry {
                            MergedRef::Scope(first, children) => {
                                let mut children = children;
                                let ghost c0 = refs_view(children@);
                                let mut j: usize = 0;
                                while j < scope.children.len()
                                    invariant
                                        j <= scope.children.len(),
                                        refs_view(children@) == c0 + scope.children@.take(
                                            j as int,
                                        ),
                                    decreases scope.children.len() - j,
                                {
                                    let ghost prev = children@;
                                    children.push(&scope.children[j]);
                                    assert(children@ == prev.push(&scope.children@[j as int]));
                                    assert(scope.children@.take(j + 1) =~= scope.children@.take(
                                        j as int,
                                    ).push(scope.children@[j as int]));
                                    assert(refs_view(children@) =~= refs_view(prev).push(
                                        scope.children@[j as int],
                                    ));
                                    assert(refs_view(children@) =~= c0 + scope.children@.take(
                                        j + 1,
                                    ));
                                    j = j + 1;
                                }
                                assert(scope.children@.take(scope.children.len() as int)
                                    =~= scope.children@);
                                results.insert(k, MergedRef::Scope(first, children));
                            },
                            MergedRef::Var(v) => {
                                results.insert(k, MergedRef::Var(v));
                            },
                        }
                        assert(merged_refs_view(results@) =~= merge_one(before, *item));
                    },
                    None => {
                        let mut children: Vec<&'a VcdScopeItem> = Vec::new();
                        let mut j: usize = 0;
                        while j < scope.children.len()
                            invariant
                                j <= scope.children.len(),
                                refs_view(children@) == scope.children@.take(j as int),
                            decreases scope.children.len() - j,
                        {
                            let ghost prev = children@;
                            children.push(&scope.children[j]);
                            assert(children@ == prev.push(&scope.children@[j as int]));
                            assert(scope.children@.take(j + 1) =~= scope.children@.take(
                                j as int,
                            ).push(scope.children@[j as int]));
                            assert(refs_view(children@) =~= refs_view(prev).push(
                                scope.children@[j as int],
                            ));
                            j = j + 1;
                        }
                        assert(scope.children@.take(scope.children.len() as int)
                            =~= scope.children@);
                        results.push(MergedRef::Scope(scope, children));
                        assert(merged_refs_view(results@) =~= merge_one(before, *item));
                    },
                }
            },
            VcdScopeItem::Var(var) => {
                results.push(MergedRef::Var(var));
                assert(merged_refs_view(results@) =~= merge_one(before, *item));
            },
            VcdScopeItem::Comment(_) => {},
        }
        i = i + 1;
    }
    assert(refs_view(items@).take(items.len() as int) =~= refs_view(items@));
    results
}

impl WaveScopeInfo {
    /// The tree entry of a scope, under the given id.
    pub fn from_scope(id: u64, scope: &VcdScope) -> (info: Self)
        ensures
            info == (WaveScopeInfo { id, name: scope.identifier, typ: scope.scope_type }),
    {
        WaveScopeInfo { id, name: scope.identifier.clone(), typ: scope.scope_type }
    }
}

/// Hashes a scope's name and the id handed down to it with the standard hasher.
fn hash_scope(name: &String, parent: u64) -> (h: u64)
    ensures
        h == scope_hash(name@, parent),
{
    let mut hasher = DefaultHasher::new();
    let name_str: &str = name.as_str();
    let name_bytes: &[u8] = name_str.as_bytes();
    assert(name_bytes@ == encode_utf8(name@));
    hasher.write(name_bytes);
    let separator: Vec<u8> = vec![0xffu8];
    assert(separator@ =~= seq![0xffu8]);
    hasher.write(separator.as_slice());
    let parent_bytes = u64_to_le_bytes(parent);
    hasher.write(parent_bytes.as_slice());
    assert(hasher@ =~= seq![encode_utf8(name@), seq![0xffu8], spec_u64_to_le_bytes(parent)]);
    hasher.finish()
}

proof fn lemma_deeper_concat(a: Seq<(nat, WaveTreeNode)>, b: Seq<(nat, WaveTreeNode)>)
    ensures
        deeper(a + b) == deeper(a) + deeper(b),
{
    assert(deeper(a + b) =~= deeper(a) + deeper(b));
}

/// The subtree of a merged scope: its node with the merged levels below it.
fn scope_subtree_of<'a>(scope: &'a VcdScope, children: &Vec<&'a VcdScopeItem>, parent: u64) -> (t:
    Tree<WaveTreeNode>)
    ensures
        tree_nodes(t) == scope_subtree(*scope, refs_view(children@), parent),
    decreases 1 + items_size(refs_view(children@)), 0nat,
{
    let id = hash_scope(&scope.identifier, parent);
    let mut node = tree_new(WaveTreeNode::WaveScope(WaveScopeInfo::from_scope(id, scope)));
    let merged = merge_scope_items(children);
    proof {
        lemma_merge_size(refs_view(children@));
    }
    let next: u64 = if id == u64::MAX {
        0
    } else {
        id + 1
    };
    vcd_iterate_tree(&mut node, &merged, next);
    node
}

/// Pushes the subtrees of one merged level under the root of `tree`: first the
/// scopes, then the variables.
fn vcd_iterate_tree<'a>(tree: &mut Tree<WaveTreeNode>, items: &Vec<MergedRef<'a>>, scope_id: u64)
    ensures
        tree_nodes(*final(tree)) == tree_nodes(*old(tree)) + deeper(
            level_nodes(merged_refs_view(items@), scope_id),
        ),
    decreases merged_seq_size(merged_refs_view(items@)), 2nat,
{
    let ghost view = merged_refs_view(items@);
    let ghost start = tree_nodes(*tree);
    let mut vars: Vec<&'a VcdVar> = Vec::new();
    let mut i: usize = 0;
    assert(view.take(0) =~= Seq::<MergedItem>::empty());
    assert(deeper(Seq::empty()) =~= Seq::<(nat, WaveTreeNode)>::empty());
    while i < items.len()
        invariant
            i <= items.len(),
            view == merged_refs_view(items@),
            tree_nodes(*tree) == start + deeper(scopes_nodes(view.take(i as int), scope_id)),
            vars@.len() == vars_nodes(view.take(i as int)).len(),
            forall|k: int|
                0 <= k < vars@.len() ==> vars_nodes(view.take(i as int))[k] == (
                0nat,
                WaveTreeNode::WaveVar(var_signal_info(*#[trigger] vars@[k])),
            ),
        decreases items.len() - i,
    {
        assert(view.take(i + 1).drop_last() =~= view.take(i as int));
        assert(view.take(i + 1).last() == view[i as int]);
        assert(view[i as int] == merged_ref_view(items@[i as int]));
        match &items[i] {
            MergedRef::Scope(scope, children) => {
                proof {
                    lemma_merged_size_elem(view, i as int);
                }
                let sub = scope_subtree_of(scope, children, scope_id);
                let ghost before = tree_nodes(*tree);
                tree_push_back(tree, sub);
                proof {
                    lemma_deeper_concat(
                        scopes_nodes(view.take(i as int), scope_id),
                        scope_subtree(**scope, refs_view(children@), scope_id),
                    );
                }
            },
            MergedRef::Var(var) => {
                let ghost prev = vars@;
                vars.push(*var);
                assert forall|k: int| 0 <= k < vars@.len() implies vars_nodes(
                    view.take(i + 1),
                )[k] == (0nat, WaveTreeNode::WaveVar(var_signal_info(*#[trigger] vars@[k]))) by {
                    if k < prev.len() {
                        assert(vars@[k] == prev[k]);
                    }
                }
            },
        }
        i = i + 1;
    }
    assert(view.take(items.len() as int) =~= view);
    let ghost mid = tree_nodes(*tree);
    let ghost vn = vars_nodes(view);
    let mut j: usize = 0;
    assert(vn.take(0) =~= Seq::<(nat, WaveTreeNode)>::empty());
    assert(mid + deeper(vn.take(0)) =~= mid);
    while j < vars.len()
        invariant
            j <= vars.len(),
            vars@.len() == vn.len(),
            forall|k: int|
                0 <= k < vars@.len() ==> vn[k] == (
                0nat,
                WaveTreeNode::WaveVar(var_signal_info(*#[trigger] vars@[k])),
            ),
            tree_nodes(*tree) == mid + deeper(vn.take(j as int)),
        decreases vars.len() - j,
    {
        let var: &VcdVar = vars[j];
        let info = WaveSignalInfo {
            id: var.code,
            name: var.reference.clone(),
            width: var.size as u64,
            typ: var.var_type,
        };
        let leaf = tree_new(WaveTreeNode::WaveVar(info));
        tree_push_back(tree, leaf);
        assert(vn.take(j + 1) =~= vn.take(j as int) + seq![vn[j as int]]);
        proof {
            lemma_deeper_concat(vn.take(j as int), seq![vn[j as int]]);
        }
        assert(deeper(seq![(0nat, WaveTreeNode::WaveVar(info))]) =~= deeper(seq![vn[j as int]]));
        j = j + 1;
    }
    assert(vn.take(vars.len() as int) =~= vn);
    proof {
        lemma_deeper_concat(scopes_nodes(view, scope_id), vn);
    }
}

/// The scope tree of a header: the root, then the merged top level.
pub fn vcd_tree(header: &VcdHeader) -> (r: Result<Tree<WaveTreeNode>, WaveError>)
    ensures
        r is Ok,
        tree_nodes(r.unwrap()) == seq![(0nat, WaveTreeNode::WaveRoot)] + deeper(
            level_nodes(merge_items(header.items@), 0),
        ),
{
    let mut root = tree_new(WaveTreeNode::WaveRoot);
    let mut refs: Vec<&VcdScopeItem> = Vec::new();
    let mut i: usize = 0;
    while i < header.items.len()
        invariant
            i <= header.items.len(),
            refs_view(refs@) == header.items@.take(i as int),
        decreases header.items.len() - i,
    {
        let ghost prev = refs@;
        refs.push(&header.items[i]);
        assert(refs@ == prev.push(&header.items@[i as int]));
        assert(header.items@.take(i + 1) =~= header.items@.take(i as int).push(
            header.items@[i as int],
        ));
        assert(refs_view(refs@) =~= refs_view(prev).push(header.items@[i as int]));
        i = i + 1;
    }
    assert(header.items@.take(header.items.len() as int) =~= header.items@);
    let items = merge_scope_items(&refs);
    vcd_iterate_tree(&mut root, &items, 0);
    Ok(root)
}

/// Whether `v` is declared among `items`, at any depth.
pub open spec fn declares(items: Seq<VcdScopeItem>, v: VcdVar) -> bool
    decreases items,
{
    if items.len() == 0 {
        false
    } else {
        declares(items.drop_last(), v) || item_declares(items.last(), v)
    }
}

/// Whether `v` is the item, or declared under it.
pub open spec fn item_declares(item: VcdScopeItem, v: VcdVar) -> bool
    decreases item,
{
    match item {
        VcdScopeItem::Scope(s) => declares(s.children@, v),
        VcdScopeItem::Var(w) => w == v,
        VcdScopeItem::Comment(_) => false,
    }
}

/// Whether scope `sc` is declared among `items`, at any depth.
pub open spec fn declares_scope(items: Seq<VcdScopeItem>, sc: VcdScope) -> bool
    decreases items,
{
    if items.len() == 0 {
        false
    } else {
        declares_scope(items.drop_last(), sc) || item_declares_scope(items.last(), sc)
    }
}

/// Whether `sc` is the item, or declared under it.
pub open spec fn item_declares_scope(item: VcdScopeItem, sc: VcdScope) -> bool
    decreases item,
{
    match item {
        VcdScopeItem::Scope(s) => s == sc || declares_scope(s.children@, sc),
        _ => false,
    }
}

/// A merged item comes from `items`: a variable declared there, or a scope
/// declared there whose children declare only variables and scopes declared
/// there.
pub open spec fn merged_within(m: MergedItem, items: Seq<VcdScopeItem>) -> bool {
    match m {
        MergedItem::Var(v) => declares(items, v),
        MergedItem::Scope(first, children) => {
            &&& declares_scope(items, first)
            &&& forall|v: VcdVar| #[trigger] declares(children, v) ==> declares(items, v)
            &&& forall|sc: VcdScope| #[trigger]
                declares_scope(children, sc) ==> declares_scope(items, sc)
        },
    }
}

/// A tree node, when it stands for a signal, describes a variable declared
/// among `items`: its id is the variable's id code, and its name, width and
/// kind are the variable's.
pub open spec fn node_declared(n: WaveTreeNode, items: Seq<VcdScopeItem>) -> bool {
    match n {
        WaveTreeNode::WaveVar(i) => exists|v: VcdVar|
            #[trigger] declares(items, v) && i.id == v.code && i.name == v.reference && i.width
                == v.size as u64 && i.typ == v.var_type,
        WaveTreeNode::WaveScope(si) => exists|sc: VcdScope|
            #[trigger] declares_scope(items, sc) && si.name == sc.identifier && si.typ
                == sc.scope_type,
        _ => true,
    }
}

pub open spec fn nodes_declared(nodes: Seq<(nat, WaveTreeNode)>, items: Seq<VcdScopeItem>) -> bool {
    forall|k: int| 0 <= k < nodes.len() ==> node_declared(#[trigger] nodes[k].1, items)
}

proof fn lemma_declares_concat(a: Seq<VcdScopeItem>, b: Seq<VcdScopeItem>, v: VcdVar)
    ensures
        declares(a + b, v) == (declares(a, v) || declares(b, v)),
    decreases b.len(),
{
    if b.len() == 0 {
        assert(a + b =~= a);
    } else {
        assert((a + b).drop_last() =~= a + b.drop_last());
        assert((a + b).last() == b.last());
        lemma_declares_concat(a, b.drop_last(), v);
    }
}

proof fn lemma_declares_scope_concat(a: Seq<VcdScopeItem>, b: Seq<VcdScopeItem>, sc: VcdScope)
    ensures
        declares_scope(a + b, sc) == (declares_scope(a, sc) || declares_scope(b, sc)),
    decreases b.len(),
{
    if b.len() == 0 {
        assert(a + b =~= a);
    } else {
        assert((a + b).drop_last() =~= a + b.drop_last());
        assert((a + b).last() == b.last());
        lemma_declares_scope_concat(a, b.drop_last(), sc);
    }
}

/// Every item of a merged level comes from the level's items.
proof fn lemma_merge_within(items: Seq<VcdScopeItem>)
    ensures
        forall|j: int|
            0 <= j < merge_items(items).len() ==> merged_within(#[trigger] merge_items(items)[j], items),
    decreases items.len(),
{
    if items.len() > 0 {
        let prev = items.drop_last();
        let r = merge_items(prev);
        let item = items.last();
        lemma_merge_within(prev);
        let r1 = merge_items(items);
        assert(r1 == merge_one(r, item));
        assert forall|v: VcdVar| declares(prev, v) implies declares(items, v) by {}
        assert forall|sc: VcdScope| declares_scope(prev, sc) implies declares_scope(items, sc) by {}
        assert forall|j: int| 0 <= j < r1.len() implies merged_within(#[trigger] r1[j], items) by {
            match item {
                VcdScopeItem::Scope(sc) => {
                    let k = find_key(r, sc.identifier@);
                    assert forall|v: VcdVar| declares(sc.children@, v) implies declares(items, v) by {
                        assert(item_declares(item, v));
                    }
                    assert forall|x: VcdScope| declares_scope(sc.children@, x) implies declares_scope(
                        items,
                        x,
                    ) by {
                        assert(item_declares_scope(item, x));
                    }
                    assert(item_declares_scope(item, sc));
                    if k < 0 {
                        if j < r.len() {
                            assert(r1[j] == r[j]);
                            assert(merged_within(r[j], prev));
                        }
                    } else {
                        lemma_find_key(r, sc.identifier@);
                        match r[k] {
                            MergedItem::Scope(first, children) => {
                                if j == k {
                                    assert(merged_within(r[k], prev));
                                    assert forall|v: VcdVar|
                                        declares(children + sc.children@, v) implies declares(items, v) by {
                                        lemma_declares_concat(children, sc.children@, v);
                                        if declares(children, v) {
                                            assert(declares(prev, v));
                                        }
                                    }
                                    assert forall|x: VcdScope|
                                        declares_scope(children + sc.children@, x) implies declares_scope(
                                        items,
                                        x,
                                    ) by {
                                        lemma_declares_scope_concat(children, sc.children@, x);
                                        if declares_scope(children, x) {
                                            assert(declares_scope(prev, x));
                                        }
                                    }
                                    assert(declares_scope(prev, first));
                                } else {
                                    assert(r1[j] == r[j]);
                                    assert(merged_within(r[j], prev));
                                }
                            },
                            MergedItem::Var(_) => {
                                assert(merged_within(r[j], prev));
                            },
                        }
                    }
                },
                VcdScopeItem::Var(w) => {
                    if j < r.len() {
                        assert(r1[j] == r[j]);
                        assert(merged_within(r[j], prev));
                    } else {
                        assert(item_declares(item, w));
                    }
                },
                VcdScopeItem::Comment(_) => {
                    assert(merged_within(r[j], prev));
                },
            }
        }
    }
}

proof fn lemma_deeper_declared(nodes: Seq<(nat, WaveTreeNode)>, items: Seq<VcdScopeItem>)
    requires
        nodes_declared(nodes, items),
    ensures
        nodes_declared(deeper(nodes), items),
{
    assert forall|k: int| 0 <= k < deeper(nodes).len() implies node_declared(
        #[trigger] deeper(nodes)[k].1,
        items,
    ) by {
        assert(deeper(nodes)[k].1 == nodes[k].1);
    }
}

proof fn lemma_concat_declared(
    a: Seq<(nat, WaveTreeNode)>,
    b: Seq<(nat, WaveTreeNode)>,
    items: Seq<VcdScopeItem>,
)
    requires
        nodes_declared(a, items),
        nodes_declared(b, items),
    ensures
        nodes_declared(a + b, items),
{
    assert forall|k: int| 0 <= k < (a + b).len() implies node_declared(#[trigger] (a + b)[k].1, items) by {
        if k < a.len() {
            assert((a + b)[k] == a[k]);
        } else {
            assert((a + b)[k] == b[k - a.len()]);
        }
    }
}

proof fn lemma_vars_declared(merged: Seq<MergedItem>, items: Seq<VcdScopeItem>)
    requires
        forall|j: int| 0 <= j < merged.len() ==> merged_within(#[trigger] merged[j], items),
    ensures
        nodes_declared(vars_nodes(merged), items),
    decreases merged.len(),
{
    if merged.len() > 0 {
        let prev = merged.drop_last();
        assert forall|j: int| 0 <= j < prev.len() implies merged_within(#[trigger] prev[j], items) by {
            assert(prev[j] == merged[j]);
        }
        lemma_vars_declared(prev, items);
        match merged.last() {
            MergedItem::Var(v) => {
                assert(merged_within(merged[merged.len() - 1], items));
                let n = vars_nodes(merged);
                assert forall|k: int| 0 <= k < n.len() implies node_declared(#[trigger] n[k].1, items) by {
                    if k < n.len() - 1 {
                        assert(n[k] == vars_nodes(prev)[k]);
                    } else {
                        assert(declares(items, v));
                    }
                }
            },
            MergedItem::Scope(_, _) => {},
        }
    }
}

proof fn lemma_level_declared(merged: Seq<MergedItem>, parent: u64, items: Seq<VcdScopeItem>)
    requires
        forall|j: int| 0 <= j < merged.len() ==> merged_within(#[trigger] merged[j], items),
    ensures
        nodes_declared(level_nodes(merged, parent), items),
    decreases merged_seq_size(merged), 2nat,
{
    lemma_scopes_declared(merged, parent, items);
    lemma_vars_declared(merged, items);
    lemma_concat_declared(scopes_nodes(merged, parent), vars_nodes(merged), items);
}

proof fn lemma_scopes_declared(merged: Seq<MergedItem>, parent: u64, items: Seq<VcdScopeItem>)
    requires
        forall|j: int| 0 <= j < merged.len() ==> merged_within(#[trigger] merged[j], items),
    ensures
        nodes_declared(scopes_nodes(merged, parent), items),
    decreases merged_seq_size(merged), 1nat,
{
    if merged.len() > 0 {
        let prev = merged.drop_last();
        assert forall|j: int| 0 <= j < prev.len() implies merged_within(#[trigger] prev[j], items) by {
            assert(prev[j] == merged[j]);
        }
        lemma_scopes_declared(prev, parent, items);
        match merged.last() {
            MergedItem::Scope(sc, children) => {
                assert(merged_within(merged[merged.len() - 1], items));
                lemma_subtree_declared(sc, children, parent, items);
                lemma_concat_declared(
                    scopes_nodes(prev, parent),
                    scope_subtree(sc, children, parent),
                    items,
                );
            },
            MergedItem::Var(_) => {},
        }
    }
}

proof fn lemma_subtree_declared(
    sc: VcdScope,
    children: Seq<VcdScopeItem>,
    parent: u64,
    items: Seq<VcdScopeItem>,
)
    requires
        forall|v: VcdVar| #[trigger] declares(children, v) ==> declares(items, v),
        forall|x: VcdScope| #[trigger] declares_scope(children, x) ==> declares_scope(items, x),
        declares_scope(items, sc),
    ensures
        nodes_declared(scope_subtree(sc, children, parent), items),
    decreases 1 + items_size(children), 0nat,
{
    let id = scope_hash(sc.identifier@, parent);
    let merged = merge_items(children);
    lemma_merge_size(children);
    lemma_merge_within(children);
    assert forall|j: int| 0 <= j < merged.len() implies merged_within(#[trigger] merged[j], items) by {
        assert(merged_within(merged[j], children));
        match merged[j] {
            MergedItem::Var(v) => {},
            MergedItem::Scope(f, ch) => {
                assert forall|v: VcdVar| #[trigger] declares(ch, v) implies declares(items, v) by {
                    assert(declares(children, v));
                }
                assert forall|x: VcdScope| #[trigger] declares_scope(ch, x) implies declares_scope(
                    items,
                    x,
                ) by {
                    assert(declares_scope(children, x));
                }
                assert(declares_scope(children, f));
            },
        }
    }
    lemma_level_declared(merged, child_scope_id(id), items);
    lemma_deeper_declared(level_nodes(merged, child_scope_id(id)), items);
    let head = seq![(0nat, scope_node(sc, id))];
    assert(nodes_declared(head, items));
    lemma_concat_declared(head, deeper(level_nodes(merged, child_scope_id(id))), items);
}

/// Every signal node of the scope tree built from a header's items stands for
/// a variable the header declares: its id is that variable's id code, and its
/// name, width and kind are the variable's. Every scope node carries the name
/// and kind of a scope the header declares.
pub proof fn lemma_tree_signals_declared(items: Seq<VcdScopeItem>)
    ensures
        forall|k: int|
            0 <= k < (seq![(0nat, WaveTreeNode::WaveRoot)] + deeper(
                level_nodes(merge_items(items), 0),
            )).len() ==> match (#[trigger] (seq![(0nat, WaveTreeNode::WaveRoot)] + deeper(
                level_nodes(merge_items(items), 0),
            ))[k]).1 {
                WaveTreeNode::WaveVar(i) => exists|v: VcdVar|
                    #[trigger] declares(items, v) && i.id == v.code && i.name == v.reference
                        && i.width == v.size as u64 && i.typ == v.var_type,
                WaveTreeNode::WaveScope(si) => exists|sc: VcdScope|
                    #[trigger] declares_scope(items, sc) && si.name == sc.identifier && si.typ
                        == sc.scope_type,
                _ => true,
            },
{
    let merged = merge_items(items);
    lemma_merge_within(items);
    lemma_level_declared(merged, 0, items);
    lemma_deeper_declared(level_nodes(merged, 0), items);
    let head = seq![(0nat, WaveTreeNode::WaveRoot)];
    assert(nodes_declared(head, items));
    lemma_concat_declared(head, deeper(level_nodes(merged, 0)), items);
    let all = head + deeper(level_nodes(merged, 0));
    assert forall|k: int| 0 <= k < all.len() implies match (#[trigger] all[k]).1 {
        WaveTreeNode::WaveVar(i) => exists|v: VcdVar|
            #[trigger] declares(items, v) && i.id == v.code && i.name == v.reference && i.width
                == v.size as u64 && i.typ == v.var_type,
        WaveTreeNode::WaveScope(si) => exists|sc: VcdScope|
            #[trigger] declares_scope(items, sc) && si.name == sc.identifier && si.typ
                == sc.scope_type,
        _ => true,
    } by {
        assert(node_declared(all[k].1, items));
    }
}

/// Merging keeps every variable of a level.
proof fn lemma_merge_keeps_var(items: Seq<VcdScopeItem>, v: VcdVar)
    requires
        items.contains(VcdScopeItem::Var(v)),
    ensures
        merge_items(items).contains(MergedItem::Var(v)),
    decreases items.len(),
{
    let prev = items.drop_last();
    let r = merge_items(prev);
    let j = choose|j: int| 0 <= j < items.len() && items[j] == VcdScopeItem::Var(v);
    let r1 = merge_items(items);
    assert(r1 == merge_one(r, items.last()));
    if j == items.len() - 1 {
        assert(r1[r1.len() - 1] == MergedItem::Var(v));
    } else {
        assert(prev[j] == items[j]);
        lemma_merge_keeps_var(prev, v);
        let i = choose|i: int| 0 <= i < r.len() && r[i] == MergedItem::Var(v);
        match items.last() {
            VcdScopeItem::Scope(sc) => {
                let k = find_key(r, sc.identifier@);
                if k < 0 {
                    assert(r1[i] == MergedItem::Var(v));
                } else {
                    lemma_find_key(r, sc.identifier@);
                    match r[k] {
                        MergedItem::Scope(_, _) => {
                            assert(i != k);
                            assert(r1[i] == MergedItem::Var(v));
                        },
                        MergedItem::Var(_) => {
                            assert(r1[i] == MergedItem::Var(v));
                        },
                    }
                }
            },
            VcdScopeItem::Var(_) => {
                assert(r1[i] == MergedItem::Var(v));
            },
            VcdScopeItem::Comment(_) => {
                assert(r1[i] == MergedItem::Var(v));
            },
        }
    }
}

proof fn lemma_vars_nodes_has(merged: Seq<MergedItem>, v: VcdVar)
    requires
        merged.contains(MergedItem::Var(v)),
    ensures
        vars_nodes(merged).contains((0nat, WaveTreeNode::WaveVar(var_signal_info(v)))),
    decreases merged.len(),
{
    let prev = merged.drop_last();
    let n = vars_nodes(merged);
    if merged.last() == MergedItem::Var(v) {
        assert(n[n.len() - 1] == (0nat, WaveTreeNode::WaveVar(var_signal_info(v))));
    } else {
        let i = choose|i: int| 0 <= i < merged.len() && merged[i] == MergedItem::Var(v);
        assert(prev[i] == merged[i]);
        lemma_vars_nodes_has(prev, v);
        let p = vars_nodes(prev);
        let k = choose|k: int| 0 <= k < p.len() && p[k] == (0nat, WaveTreeNode::WaveVar(var_signal_info(v)));
        match merged.last() {
            MergedItem::Var(_) => {
                assert(n[k] == p[k]);
            },
            MergedItem::Scope(_, _) => {
                assert(n[k] == p[k]);
            },
        }
    }
}

/// Every variable declared directly in a header's items is listed in the
/// scope tree right below the root, with its id code as id and its name,
/// width and kind.
pub proof fn lemma_tree_lists_top_vars(items: Seq<VcdScopeItem>, v: VcdVar)
    requires
        items.contains(VcdScopeItem::Var(v)),
    ensures
        (seq![(0nat, WaveTreeNode::WaveRoot)] + deeper(level_nodes(merge_items(items), 0))).contains(
            (
                1nat,
                WaveTreeNode::WaveVar(
                    WaveSignalInfo {
                        id: v.code,
                        name: v.reference,
                        width: v.size as u64,
                        typ: v.var_type,
                    },
                ),
            ),
        ),
{
    let merged = merge_items(items);
    lemma_merge_keeps_var(items, v);
    lemma_vars_nodes_has(merged, v);
    let vn = vars_nodes(merged);
    let sn = scopes_nodes(merged, 0);
    let node = (0nat, WaveTreeNode::WaveVar(var_signal_info(v)));
    let k = choose|k: int| 0 <= k < vn.len() && vn[k] == node;
    let lv = level_nodes(merged, 0);
    assert(lv == sn + vn);
    assert(lv[sn.len() + k] == node);
    let d = deeper(lv);
    assert(d[sn.len() + k] == (1nat, node.1));
    let all = seq![(0nat, WaveTreeNode::WaveRoot)] + d;
    assert(all[sn.len() + k + 1] == (1nat, node.1));
}

} // verus!
