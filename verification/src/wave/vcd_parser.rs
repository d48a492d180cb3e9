//! From a parsed VCD header and its value changes to a [`Wave`].
use crate::text::{
    decimal_chars, digits, parse_u64, push_all, push_str_chars, regex_capture, regex_capture_group,
    spec_parse_u64, string_from_chars, string_to_chars,
};
use crate::wave::scope_tree::{declares, deeper, item_declares, level_nodes, merge_items, tree_nodes};
pub use crate::wave::scope_tree::vcd_tree;
use crate::wave::{
    compressed_raw, list_of, sorted_by_time, Wave, WaveDataItem, WaveDataValue, WaveError,
    WaveInfo, WavePreLoader, WaveScopeType, WaveSignalInfo, WaveSignalType, WaveTimescaleUnit,
    WaveTreeNode, WireValue,
};
use queues::{IsQueue, Queue};
use std::collections::HashMap;
use vstd::prelude::*;

verus! {

broadcast use vstd::std_specs::hash::group_hash_axioms;

/// A `$var` declaration of a VCD header.
#[derive(Clone, Debug)]
pub struct VcdVar {
    pub var_type: WaveSignalType,
    /// Width in bits.
    pub size: u32,
    /// Id code that value changes name the variable by.
    pub code: u64,
    /// Name of the variable.
    pub reference: String,
}

/// A `$scope` of a VCD header, with what it declares.
#[derive(Debug)]
pub struct VcdScope {
    pub scope_type: WaveScopeType,
    pub identifier: String,
    pub children: Vec<VcdScopeItem>,
}

/// An item of a VCD scope: a child scope, a variable or a comment.
#[derive(Debug)]
pub enum VcdScopeItem {
    Scope(VcdScope),
    Var(VcdVar),
    Comment(String),
}

/// The header of a VCD file.
#[derive(Debug)]
pub struct VcdHeader {
    pub comment: Option<String>,
    pub date: Option<String>,
    pub version: Option<String>,
    pub timescale: Option<(u32, WaveTimescaleUnit)>,
    pub items: Vec<VcdScopeItem>,
}

/// A command of the VCD value-change section, as far as a wave reads it.
#[derive(Clone, Debug)]
pub enum VcdCommand {
    /// `#t`: later changes happen at time `t`.
    Timestamp(u64),
    /// A one-bit variable changes.
    ChangeScalar(u64, WireValue),
    /// A vector variable changes; the bits in the order the file writes them
    /// (values read the first bit as the least significant).
    ChangeVector(u64, Vec<WireValue>),
    /// Any other command (real or string changes, dump control, ...).
    Other,
}

/// The number of an identifier character: `!` is 1, `~` is 94.
pub open spec fn id_char_value(c: char) -> int {
    c as int - 32
}

/// An identifier code read as a number in bijective base 94, its first
/// character the least significant digit.
pub open spec fn id_code_number(s: Seq<char>) -> int
    decreases s.len(),
{
    if s.len() == 0 {
        0
    } else {
        id_char_value(s[0]) + 94 * id_code_number(s.drop_first())
    }
}

/// Whether every character is one of `!` to `~`.
pub open spec fn id_code_chars(s: Seq<char>) -> bool {
    forall|i: int| 0 <= i < s.len() ==> '!' <= #[trigger] s[i] <= '~'
}

/// The number a VCD identifier code stands for: one less than its base-94
/// reading; none for an empty code, a character outside `!`..`~`, or a number
/// that does not fit in 64 bits.
pub open spec fn spec_id_code(s: Seq<char>) -> Option<u64> {
    if s.len() > 0 && id_code_chars(s) && id_code_number(s) <= u64::MAX {
        Some((id_code_number(s) - 1) as u64)
    } else {
        None
    }
}

proof fn lemma_id_code_number_grows(s: Seq<char>, k: int)
    requires
        0 <= k <= s.len(),
        id_code_chars(s),
    ensures
        id_code_number(s.skip(k)) <= id_code_number(s),
        k < s.len() ==> id_code_number(s.skip(k)) >= 1,
    decreases k,
{
    if k > 0 {
        assert(s.skip(1).skip(k - 1) =~= s.skip(k));
        assert(id_code_chars(s.skip(1))) by {
            assert forall|i: int| 0 <= i < s.skip(1).len() implies '!' <= #[trigger] s.skip(1)[i]
                <= '~' by {
                assert(s.skip(1)[i] == s[i + 1]);
            }
        }
        lemma_id_code_number_grows(s.skip(1), k - 1);
        assert(s.drop_first() =~= s.skip(1));
        assert(id_code_number(s.skip(1)) >= 0) by {
            lemma_id_code_number_nonneg(s.skip(1));
        }
    } else {
        assert(s.skip(0) =~= s);
        if s.len() > 0 {
            lemma_id_code_number_nonneg(s.drop_first());
            assert(s.drop_first() =~= s.skip(1));
        }
    }
}

proof fn lemma_id_code_number_nonneg(s: Seq<char>)
    requires
        id_code_chars(s),
    ensures
        id_code_number(s) >= 0,
    decreases s.len(),
{
    if s.len() > 0 {
        assert(id_code_chars(s.drop_first())) by {
            assert forall|i: int| 0 <= i < s.drop_first().len() implies '!'
                <= #[trigger] s.drop_first()[i] <= '~' by {
                assert(s.drop_first()[i] == s[i + 1]);
            }
        }
        lemma_id_code_number_nonneg(s.drop_first());
    }
}

/// Reads a VCD identifier code (as the VCD crate prints it) back into its number.
pub fn vcd_id_code(code: &String) -> (r: Option<u64>)
    ensures
        r == spec_id_code(code@),
{
    let chars = string_to_chars(code);
    if chars.len() == 0 {
        return None;
    }
    let mut k: usize = 0;
    while k < chars.len()
        invariant
            k <= chars@.len(),
            chars@ == code@,
            forall|i: int| 0 <= i < k ==> '!' <= #[trigger] chars@[i] <= '~',
        decreases chars.len() - k,
    {
        if chars[k] < '!' || chars[k] > '~' {
            return None;
        }
        k = k + 1;
    }
    let mut result: u64 = 0;
    let mut i: usize = chars.len();
    assert(chars@.skip(chars@.len() as int) =~= Seq::<char>::empty());
    while i > 0
        invariant
            i <= chars@.len(),
            chars@ == code@,
            chars@.len() > 0,
            id_code_chars(chars@),
            result == id_code_number(chars@.skip(i as int)),
        decreases i,
    {
        let c: u64 = (chars[i - 1] as u32 - 32) as u64;
        assert(chars@.skip(i - 1).drop_first() =~= chars@.skip(i as int));
        assert(chars@.skip(i - 1)[0] == chars@[i - 1]);
        match result.checked_mul(94) {
            Some(m) => match m.checked_add(c) {
                Some(v) => {
                    result = v;
                },
                None => {
                    proof {
                        lemma_id_code_number_grows(chars@, i - 1);
                    }
                    return None;
                },
            },
            None => {
                proof {
                    lemma_id_code_number_grows(chars@, i - 1);
                }
                return None;
            },
        }
        i = i - 1;
    }
    assert(chars@.skip(0) =~= chars@);
    proof {
        lemma_id_code_number_grows(chars@, 0);
    }
    Some(result - 1)
}

/// The signal information that a `$var` declares.
pub open spec fn var_signal_info(v: VcdVar) -> WaveSignalInfo {
    WaveSignalInfo { id: v.code, name: v.reference, width: v.size as u64, typ: v.var_type }
}

/// Walks items in file order, registering each variable's signal information
/// under its id code; a later declaration of a code replaces an earlier one.
pub open spec fn items_name_walk(items: Seq<VcdScopeItem>, m: Map<u64, WaveSignalInfo>) -> Map<
    u64,
    WaveSignalInfo,
>
    decreases items,
{
    if items.len() == 0 {
        m
    } else {
        item_name_walk(items.last(), items_name_walk(items.drop_last(), m))
    }
}

pub open spec fn item_name_walk(item: VcdScopeItem, m: Map<u64, WaveSignalInfo>) -> Map<
    u64,
    WaveSignalInfo,
>
    decreases item,
{
    match item {
        VcdScopeItem::Scope(s) => items_name_walk(s.children@, m),
        VcdScopeItem::Var(v) => m.insert(v.code, var_signal_info(v)),
        VcdScopeItem::Comment(_) => m,
    }
}

/// Every entry of a map of signal information names the id code it is stored
/// under.
pub open spec fn ids_match_keys(m: Map<u64, WaveSignalInfo>) -> bool {
    forall|k: u64| #[trigger] m.dom().contains(k) ==> m[k].id == k
}

proof fn lemma_items_name_walk_ids(items: Seq<VcdScopeItem>, m: Map<u64, WaveSignalInfo>)
    requires
        ids_match_keys(m),
    ensures
        ids_match_keys(items_name_walk(items, m)),
    decreases items,
{
    if items.len() > 0 {
        lemma_items_name_walk_ids(items.drop_last(), m);
        lemma_item_name_walk_ids(items.last(), items_name_walk(items.drop_last(), m));
    }
}

proof fn lemma_item_name_walk_ids(item: VcdScopeItem, m: Map<u64, WaveSignalInfo>)
    requires
        ids_match_keys(m),
    ensures
        ids_match_keys(item_name_walk(item, m)),
    decreases item,
{
    match item {
        VcdScopeItem::Scope(s) => {
            lemma_items_name_walk_ids(s.children@, m);
        },
        _ => {},
    }
}

/// The signal information of a header's variables, indexed by id code,
/// describes under each code the signal of that code: its id is the key.
pub proof fn lemma_code_name_ids(items: Seq<VcdScopeItem>)
    ensures
        forall|k: u64| #[trigger]
            items_name_walk(items, Map::empty()).dom().contains(k) ==> items_name_walk(
                items,
                Map::empty(),
            )[k].id == k,
{
    lemma_items_name_walk_ids(items, Map::empty());
}

/// Every entry describes a variable declared among `base` under that
/// variable's id code: name, width and kind are the variable's.
pub open spec fn entries_declared(m: Map<u64, WaveSignalInfo>, base: Seq<VcdScopeItem>) -> bool {
    forall|k: u64| #[trigger]
        m.dom().contains(k) ==> exists|v: VcdVar|
            #[trigger] declares(base, v) && v.code == k && m[k].name == v.reference && m[k].width
                == v.size as u64 && m[k].typ == v.var_type
}

proof fn lemma_items_name_walk_declared(
    items: Seq<VcdScopeItem>,
    m: Map<u64, WaveSignalInfo>,
    base: Seq<VcdScopeItem>,
)
    requires
        entries_declared(m, base),
        forall|v: VcdVar| #[trigger] declares(items, v) ==> declares(base, v),
    ensures
        entries_declared(items_name_walk(items, m), base),
        forall|k: u64| m.dom().contains(k) ==> #[trigger] items_name_walk(items, m).dom().contains(k),
        forall|v: VcdVar| #[trigger] declares(items, v) ==> items_name_walk(items, m).dom().contains(
            v.code,
        ),
    decreases items,
{
    if items.len() > 0 {
        let prev = items.drop_last();
        assert forall|v: VcdVar| #[trigger] declares(prev, v) implies declares(base, v) by {
            assert(declares(items, v));
        }
        lemma_items_name_walk_declared(prev, m, base);
        let m1 = items_name_walk(prev, m);
        assert forall|v: VcdVar| #[trigger] item_declares(items.last(), v) implies declares(base, v) by {
            assert(declares(items, v));
        }
        lemma_item_name_walk_declared(items.last(), m1, base);
        let m2 = items_name_walk(items, m);
        assert(m2 == item_name_walk(items.last(), m1));
        assert forall|v: VcdVar| #[trigger] declares(items, v) implies m2.dom().contains(v.code) by {
            if declares(prev, v) {
                assert(m1.dom().contains(v.code));
            } else {
                assert(item_declares(items.last(), v));
            }
        }
        assert forall|k: u64| m.dom().contains(k) implies #[trigger] m2.dom().contains(k) by {
            assert(m1.dom().contains(k));
        }
    }
}

proof fn lemma_item_name_walk_declared(
    item: VcdScopeItem,
    m: Map<u64, WaveSignalInfo>,
    base: Seq<VcdScopeItem>,
)
    requires
        entries_declared(m, base),
        forall|v: VcdVar| #[trigger] item_declares(item, v) ==> declares(base, v),
    ensures
        entries_declared(item_name_walk(item, m), base),
        forall|k: u64| m.dom().contains(k) ==> #[trigger] item_name_walk(item, m).dom().contains(k),
        forall|v: VcdVar| #[trigger] item_declares(item, v) ==> item_name_walk(item, m).dom().contains(
            v.code,
        ),
    decreases item,
{
    match item {
        VcdScopeItem::Scope(s) => {
            assert forall|v: VcdVar| #[trigger] declares(s.children@, v) implies declares(base, v) by {
                assert(item_declares(item, v));
            }
            lemma_items_name_walk_declared(s.children@, m, base);
            assert forall|v: VcdVar| #[trigger] item_declares(item, v) implies item_name_walk(
                item,
                m,
            ).dom().contains(v.code) by {
                assert(declares(s.children@, v));
            }
        },
        VcdScopeItem::Var(w) => {
            assert(item_declares(item, w));
            let m1 = m.insert(w.code, var_signal_info(w));
            assert forall|v: VcdVar| #[trigger] item_declares(item, v) implies m1.dom().contains(v.code) by {
                assert(v == w);
            }
            assert forall|k: u64| #[trigger] m1.dom().contains(k) implies exists|v: VcdVar|
                #[trigger] declares(base, v) && v.code == k && m1[k].name == v.reference
                    && m1[k].width == v.size as u64 && m1[k].typ == v.var_type by {
                if k == w.code {
                    assert(declares(base, w));
                } else {
                    assert(m.dom().contains(k));
                }
            }
        },
        VcdScopeItem::Comment(_) => {},
    }
}

/// The signal information of a header, indexed by id code, has an entry for
/// every variable the header declares, and each entry describes a declared
/// variable of that code: its name, width and kind.
pub proof fn lemma_code_name_declared(items: Seq<VcdScopeItem>)
    ensures
        forall|v: VcdVar| #[trigger] declares(items, v) ==> items_name_walk(
            items,
            Map::empty(),
        ).dom().contains(v.code),
        forall|k: u64| #[trigger]
            items_name_walk(items, Map::empty()).dom().contains(k) ==> exists|v: VcdVar|
                #[trigger] declares(items, v) && v.code == k && items_name_walk(
                    items,
                    Map::empty(),
                )[k].name == v.reference && items_name_walk(items, Map::empty())[k].width
                    == v.size as u64 && items_name_walk(items, Map::empty())[k].typ == v.var_type,
{
    lemma_items_name_walk_declared(items, Map::empty(), items);
    assert(entries_declared(items_name_walk(items, Map::empty()), items));
}

/// Walks items in file order keeping the names of the scopes that enclose the
/// current item, outermost first (a scope's name is added on entering it and
/// taken off on leaving it); each variable is registered under its id code
/// with that list followed by its own name, a later declaration of a code
/// replacing an earlier one.
pub open spec fn items_path_walk(
    items: Seq<VcdScopeItem>,
    path: Seq<String>,
    m: Map<u64, Seq<String>>,
) -> (Seq<String>, Map<u64, Seq<String>>)
    decreases items,
{
    if items.len() == 0 {
        (path, m)
    } else {
        let (p, m1) = items_path_walk(items.drop_last(), path, m);
        item_path_walk(items.last(), p, m1)
    }
}

pub open spec fn item_path_walk(item: VcdScopeItem, path: Seq<String>, m: Map<u64, Seq<String>>) -> (
    Seq<String>,
    Map<u64, Seq<String>>,
)
    decreases item,
{
    match item {
        VcdScopeItem::Scope(s) => (
            path,
            items_path_walk(s.children@, path.push(s.identifier), m).1,
        ),
        VcdScopeItem::Var(v) => (path, m.insert(v.code, path.push(v.reference))),
        VcdScopeItem::Comment(_) => (path, m),
    }
}

/// The paths that a map holds, as sequences.
pub open spec fn paths_view(m: Map<u64, Vec<String>>) -> Map<u64, Seq<String>> {
    m.map_values(|v: Vec<String>| v@)
}

fn add_code_names(m: &mut HashMap<u64, WaveSignalInfo>, items: &Vec<VcdScopeItem>)
    ensures
        final(m)@ == items_name_walk(items@, old(m)@),
    decreases items@,
{
    let mut i: usize = 0;
    while i < items.len()
        invariant
            i <= items.len(),
            m@ == items_name_walk(items@.take(i as int), old(m)@),
        decreases items.len() - i,
    {
        assert(items@.take(i + 1).drop_last() =~= items@.take(i as int));
        assert(items@.take(i + 1).last() == items@[i as int]);
        assert(items_name_walk(items@.take(i + 1), old(m)@) == item_name_walk(
            items@[i as int],
            items_name_walk(items@.take(i as int), old(m)@),
        ));
        let ghost before = m@;
        match &items[i] {
            VcdScopeItem::Scope(scope) => {
                assert(decreases_to!(items@ => scope.children@)) by {
                    assert(decreases_to!(items@ => items@[i as int]));
                }
                add_code_names(m, &scope.children);
                assert(m@ == item_name_walk(items@[i as int], before));
            },
            VcdScopeItem::Var(var) => {
                let info = WaveSignalInfo {
                    id: var.code,
                    name: var.reference.clone(),
                    width: var.size as u64,
                    typ: var.var_type,
                };
                m.insert(var.code, info);
                assert(m@ == item_name_walk(items@[i as int], before));
            },
            VcdScopeItem::Comment(_) => {},
        }
        i = i + 1;
    }
    assert(items@.take(items.len() as int) =~= items@);
}

/// The signal information of every variable of the header, indexed by id code;
/// for a code declared more than once, the last declaration in file order.
pub fn vcd_code_name(header: &VcdHeader) -> (m: HashMap<u64, WaveSignalInfo>)
    ensures
        m@ == items_name_walk(header.items@, Map::empty()),
{
    let mut map: HashMap<u64, WaveSignalInfo> = HashMap::new();
    add_code_names(&mut map, &header.items);
    map
}

/// A queue of the queues crate; what it holds is told by [`queue_items`].
#[verifier::external_type_specification]
#[verifier::external_body]
#[verifier::reject_recursive_types(T)]
pub struct ExQueue<T: Clone>(Queue<T>);

/// The items of a queue of the queues crate, from the front to the back.
pub uninterp spec fn queue_items(q: Queue<String>) -> Seq<String>;

/// Calls queues `Queue::new`, an empty queue.
#[verifier::external_body]
fn queue_new() -> (q: Queue<String>)
    ensures
        queue_items(q) == Seq::<String>::empty(),
{
    Queue::new()
}

/// Calls queues `IsQueue::add` on a `Queue`: the value goes to the back. Its
/// source always answers `Ok(None)`.
#[verifier::external_body]
fn queue_add(q: &mut Queue<String>, v: String) -> (r: Result<Option<String>, String>)
    ensures
        queue_items(*final(q)) == queue_items(*old(q)).push(v),
        r is Ok,
        r.unwrap() is None,
{
    q.add(v).map_err(|e| e.to_string())
}

/// Calls queues `IsQueue::remove` on a `Queue`: takes the front value, or fails
/// on an empty queue and leaves it as it is.
#[verifier::external_body]
fn queue_remove(q: &mut Queue<String>) -> (r: Result<String, String>)
    ensures
        queue_items(*old(q)).len() == 0 <==> r is Err,
        r matches Ok(v) ==> v == queue_items(*old(q))[0] && queue_items(*final(q)) == queue_items(
            *old(q),
        ).drop_first(),
        r is Err ==> queue_items(*final(q)) == queue_items(*old(q)),
{
    q.remove().map_err(|e| e.to_string())
}

/// Calls queues `IsQueue::size` on a `Queue`: the number of values.
#[verifier::external_body]
fn queue_size(q: &Queue<String>) -> (n: usize)
    ensures
        n == queue_items(*q).len(),
{
    q.size()
}

/// Records the path of a variable: the scope names in the queue followed by the
/// variable's name. The queue is read by taking every name out and putting it
/// back.
fn record_var_path(result: &mut HashMap<u64, Vec<String>>, path: &mut Queue<String>, var: &VcdVar)
    ensures
        queue_items(*final(path)) == queue_items(*old(path)),
        paths_view(final(result)@) == paths_view(old(result)@).insert(
            var.code,
            queue_items(*old(path)).push(var.reference),
        ),
{
    let ghost start = queue_items(*path);
    let mut vec: Vec<String> = Vec::new();
    while queue_size(path) > 0
        invariant
            vec@ + queue_items(*path) == start,
        decreases queue_items(*path).len(),
    {
        let r = queue_remove(path);
        match r {
            Ok(v) => {
                let ghost before = queue_items(*path);
                vec.push(v);
                assert(vec@ + queue_items(*path) =~= start);
            },
            Err(_) => {},
        }
    }
    assert(vec@ =~= start);
    let mut j: usize = 0;
    while j < vec.len()
        invariant
            j <= vec.len(),
            vec@ == start,
            queue_items(*path) == start.take(j as int),
        decreases vec.len() - j,
    {
        let _ = queue_add(path, vec[j].clone());
        j = j + 1;
        assert(queue_items(*path) =~= start.take(j as int));
    }
    assert(start.take(vec.len() as int) =~= start);
    vec.push(var.reference.clone());
    result.insert(var.code, vec);
    assert(paths_view(result@) =~= paths_view(old(result)@).insert(
        var.code,
        start.push(var.reference),
    ));
}

/// Takes the last name off the queue: every name before it goes round from
/// the front to the back once, and the last one then stands at the front.
fn drop_last_name(path: &mut Queue<String>)
    requires
        queue_items(*old(path)).len() > 0,
    ensures
        queue_items(*final(path)) == queue_items(*old(path)).drop_last(),
{
    let ghost start = queue_items(*path);
    let n: usize = queue_size(path);
    let mut j: usize = 0;
    assert(start.skip(0) + start.take(0) =~= start);
    while j + 1 < n
        invariant
            n == start.len(),
            n > 0,
            j < n,
            queue_items(*path) == start.skip(j as int) + start.take(j as int),
        decreases n - j,
    {
        let r = queue_remove(path);
        match r {
            Ok(v) => {
                let _ = queue_add(path, v);
            },
            Err(_) => {},
        }
        assert(start.skip(j + 1) + start.take(j + 1) =~= queue_items(*path));
        j = j + 1;
    }
    let _ = queue_remove(path);
    assert(queue_items(*path) =~= start.drop_last());
}

fn add_code_paths(
    result: &mut HashMap<u64, Vec<String>>,
    path: &mut Queue<String>,
    items: &Vec<VcdScopeItem>,
)
    ensures
        (queue_items(*final(path)), paths_view(final(result)@)) == items_path_walk(
            items@,
            queue_items(*old(path)),
            paths_view(old(result)@),
        ),
        queue_items(*final(path)) == queue_items(*old(path)),
    decreases items@,
{
    let mut i: usize = 0;
    while i < items.len()
        invariant
            i <= items.len(),
            (queue_items(*path), paths_view(result@)) == items_path_walk(
                items@.take(i as int),
                queue_items(*old(path)),
                paths_view(old(result)@),
            ),
            queue_items(*path) == queue_items(*old(path)),
        decreases items.len() - i,
    {
        assert(items@.take(i + 1).drop_last() =~= items@.take(i as int));
        assert(items@.take(i + 1).last() == items@[i as int]);
        let ghost before = items_path_walk(
            items@.take(i as int),
            queue_items(*old(path)),
            paths_view(old(result)@),
        );
        assert(items_path_walk(
            items@.take(i + 1),
            queue_items(*old(path)),
            paths_view(old(result)@),
        ) == item_path_walk(items@[i as int], before.0, before.1));
        match &items[i] {
            VcdScopeItem::Scope(scope) => {
                let _ = queue_add(path, scope.identifier.clone());
                assert(decreases_to!(items@ => scope.children@)) by {
                    assert(decreases_to!(items@ => items@[i as int]));
                }
                add_code_paths(result, path, &scope.children);
                drop_last_name(path);
                assert(queue_items(*path) =~= before.0);
            },
            VcdScopeItem::Var(var) => {
                record_var_path(result, path, var);
            },
            VcdScopeItem::Comment(_) => {},
        }
        i = i + 1;
    }
    assert(items@.take(items.len() as int) =~= items@);
}

/// The path of every variable of the header, indexed by id code: the names of
/// the scopes that enclose it, outermost first, then its own name.
pub fn vcd_code_path(header: &VcdHeader) -> (r: Result<HashMap<u64, Vec<String>>, WaveError>)
    ensures
        r matches Ok(m) && paths_view(m@) == items_path_walk(
            header.items@,
            Seq::empty(),
            Map::empty(),
        ).1,
{
    let mut map: HashMap<u64, Vec<String>> = HashMap::new();
    let mut path = queue_new();
    assert(paths_view(map@) =~= Map::<u64, Seq<String>>::empty());
    add_code_paths(&mut map, &mut path, &header.items);
    Ok(map)
}

/// `<label>: <text>`.
pub open spec fn labelled(label: Seq<char>, text: Seq<char>) -> Seq<char> {
    label + seq![':', ' '] + text
}

pub open spec fn comment_label() -> Seq<char> {
    seq!['c', 'o', 'm', 'm', 'e', 'n', 't']
}

pub open spec fn date_label() -> Seq<char> {
    seq!['d', 'a', 't', 'e']
}

pub open spec fn version_label() -> Seq<char> {
    seq!['v', 'e', 'r', 's', 'i', 'o', 'n']
}

pub open spec fn timescale_label() -> Seq<char> {
    seq!['t', 'i', 'm', 'e', 's', 'c', 'a', 'l', 'e']
}

/// One line for a header text that is present, none for an absent one.
pub open spec fn optional_line(label: Seq<char>, text: Option<String>) -> Seq<Seq<char>> {
    match text {
        Some(t) => seq![labelled(label, t@)],
        None => Seq::empty(),
    }
}

/// The lines that describe a header: its comment, date and version when
/// present, and its time scale as `timescale: <number> / <unit>`.
pub open spec fn header_show_lines(h: VcdHeader) -> Seq<Seq<char>> {
    optional_line(comment_label(), h.comment) + optional_line(date_label(), h.date) + optional_line(
        version_label(),
        h.version,
    ) + match h.timescale {
        Some((n, u)) => seq![
            labelled(
                timescale_label(),
                digits(n as nat, 10) + seq![' ', '/', ' '] + u.spec_name(),
            ),
        ],
        None => Seq::empty(),
    }
}

/// The texts of a sequence of strings.
pub open spec fn strings_view(v: Seq<String>) -> Seq<Seq<char>> {
    v.map_values(|s: String| s@)
}

fn push_labelled_line(
    lines: &mut Vec<String>,
    label: &Vec<char>,
    text: &Option<String>,
    ghost_label: Ghost<Seq<char>>,
)
    requires
        label@ == ghost_label@,
    ensures
        strings_view(final(lines)@) == strings_view(old(lines)@) + optional_line(
            ghost_label@,
            *text,
        ),
{
    match text {
        Some(t) => {
            let mut out: Vec<char> = Vec::new();
            push_all(&mut out, label);
            out.push(':');
            out.push(' ');
            push_str_chars(&mut out, t);
            assert(out@ =~= labelled(ghost_label@, t@));
            lines.push(string_from_chars(&out));
            assert(strings_view(lines@) =~= strings_view(old(lines)@) + optional_line(
                ghost_label@,
                *text,
            ));
        },
        None => {
            assert(strings_view(lines@) =~= strings_view(old(lines)@) + optional_line(
                ghost_label@,
                *text,
            ));
        },
    }
}

/// The lines that describe a header: `comment: ..`, `date: ..`, `version: ..`
/// for the texts present, and `timescale: <n> / <unit>`.
pub fn vcd_header_show(header: &VcdHeader) -> (lines: Vec<String>)
    ensures
        strings_view(lines@) == header_show_lines(*header),
{
    let mut lines: Vec<String> = Vec::new();
    let comment = vec!['c', 'o', 'm', 'm', 'e', 'n', 't'];
    let date = vec!['d', 'a', 't', 'e'];
    let version = vec!['v', 'e', 'r', 's', 'i', 'o', 'n'];
    assert(strings_view(lines@) =~= Seq::<Seq<char>>::empty());
    push_labelled_line(&mut lines, &comment, &header.comment, Ghost(comment_label()));
    push_labelled_line(&mut lines, &date, &header.date, Ghost(date_label()));
    push_labelled_line(&mut lines, &version, &header.version, Ghost(version_label()));
    let ghost before = strings_view(lines@);
    match &header.timescale {
        Some((n, u)) => {
            let mut out: Vec<char> = vec!['t', 'i', 'm', 'e', 's', 'c', 'a', 'l', 'e', ':', ' '];
            let num = decimal_chars(*n as u64);
            push_all(&mut out, &num);
            out.push(' ');
            out.push('/');
            out.push(' ');
            let name = u.name_chars();
            push_all(&mut out, &name);
            assert(out@ =~= labelled(
                timescale_label(),
                digits(*n as nat, 10) + seq![' ', '/', ' '] + u.spec_name(),
            ));
            lines.push(string_from_chars(&out));
            assert(strings_view(lines@) =~= before.push(out@));
        },
        None => {},
    }
    assert(strings_view(lines@) =~= header_show_lines(*header));
    lines
}

/// The header texts that a wave keeps, as (name, text) pairs in the order
/// comment, date, version, each one only when present.
pub open spec fn header_entries(h: VcdHeader) -> Seq<(Seq<char>, Seq<char>)> {
    entry_of(comment_label(), h.comment) + entry_of(date_label(), h.date) + entry_of(
        version_label(),
        h.version,
    )
}

pub open spec fn entry_of(label: Seq<char>, text: Option<String>) -> Seq<(Seq<char>, Seq<char>)> {
    match text {
        Some(t) => seq![(label, t@)],
        None => Seq::empty(),
    }
}

/// The texts of (name, text) pairs.
pub open spec fn entries_view(v: Seq<(String, String)>) -> Seq<(Seq<char>, Seq<char>)> {
    v.map_values(|e: (String, String)| (e.0@, e.1@))
}

fn push_entry(
    entries: &mut Vec<(String, String)>,
    label: &Vec<char>,
    text: &Option<String>,
    ghost_label: Ghost<Seq<char>>,
)
    requires
        label@ == ghost_label@,
    ensures
        entries_view(final(entries)@) == entries_view(old(entries)@) + entry_of(ghost_label@, *text),
{
    match text {
        Some(t) => {
            entries.push((string_from_chars(label), t.clone()));
        },
        None => {},
    }
    assert(entries_view(entries@) =~= entries_view(old(entries)@) + entry_of(ghost_label@, *text));
}

/// `level` tab characters.
pub open spec fn tabs(level: nat) -> Seq<char> {
    Seq::new(level, |i: int| '\t')
}

/// The outline of items: each scope's name on a line of its own, indented by
/// one tab per level, followed by its children one level deeper; each variable
/// as `<name> width=<size>`; comments are left out.
pub open spec fn items_outline(items: Seq<VcdScopeItem>, level: nat) -> Seq<Seq<char>>
    decreases items,
{
    if items.len() == 0 {
        Seq::empty()
    } else {
        items_outline(items.drop_last(), level) + item_outline(items.last(), level)
    }
}

pub open spec fn item_outline(item: VcdScopeItem, level: nat) -> Seq<Seq<char>>
    decreases item,
{
    match item {
        VcdScopeItem::Scope(s) => seq![tabs(level) + s.identifier@] + items_outline(
            s.children@,
            level + 1,
        ),
        VcdScopeItem::Var(v) => seq![
            tabs(level) + v.reference@ + seq![' ', 'w', 'i', 'd', 't', 'h', '='] + digits(
                v.size as nat,
                10,
            ),
        ],
        VcdScopeItem::Comment(_) => Seq::empty(),
    }
}

fn push_outline(
    lines: &mut Vec<String>,
    items: &Vec<VcdScopeItem>,
    indent: &Vec<char>,
    Ghost(level): Ghost<nat>,
)
    requires
        indent@ == tabs(level),
    ensures
        strings_view(final(lines)@) == strings_view(old(lines)@) + items_outline(items@, level),
    decreases items@,
{
    let mut i: usize = 0;
    assert(items@.take(0) =~= Seq::<VcdScopeItem>::empty());
    assert(strings_view(lines@) =~= strings_view(old(lines)@) + items_outline(items@.take(0), level));
    while i < items.len()
        invariant
            i <= items.len(),
            indent@ == tabs(level),
            strings_view(lines@) == strings_view(old(lines)@) + items_outline(
                items@.take(i as int),
                level,
            ),
        decreases items.len() - i,
    {
        assert(items@.take(i + 1).drop_last() =~= items@.take(i as int));
        assert(items@.take(i + 1).last() == items@[i as int]);
        let ghost before = strings_view(lines@);
        match &items[i] {
            VcdScopeItem::Scope(scope) => {
                let mut line: Vec<char> = Vec::new();
                push_all(&mut line, indent);
                push_str_chars(&mut line, &scope.identifier);
                lines.push(string_from_chars(&line));
                assert(strings_view(lines@) =~= before + seq![tabs(level) + scope.identifier@]);
                let mut deeper: Vec<char> = Vec::new();
                push_all(&mut deeper, indent);
                deeper.push('\t');
                assert(deeper@ =~= tabs(level + 1));
                assert(decreases_to!(items@ => scope.children@)) by {
                    assert(decreases_to!(items@ => items@[i as int]));
                }
                push_outline(lines, &scope.children, &deeper, Ghost(level + 1));
                assert(strings_view(lines@) =~= before + item_outline(items@[i as int], level));
            },
            VcdScopeItem::Var(var) => {
                let mut line: Vec<char> = Vec::new();
                push_all(&mut line, indent);
                push_str_chars(&mut line, &var.reference);
                let label = vec![' ', 'w', 'i', 'd', 't', 'h', '='];
                push_all(&mut line, &label);
                let size = decimal_chars(var.size as u64);
                push_all(&mut line, &size);
                lines.push(string_from_chars(&line));
                assert(strings_view(lines@) =~= before + item_outline(items@[i as int], level));
            },
            VcdScopeItem::Comment(_) => {
                assert(strings_view(lines@) =~= before + item_outline(items@[i as int], level));
            },
        }
        i = i + 1;
    }
    assert(items@.take(items.len() as int) =~= items@);
}

/// The outline of the header's scopes and variables, one line each.
pub fn vcd_tree_show(header: &VcdHeader) -> (lines: Vec<String>)
    ensures
        strings_view(lines@) == items_outline(header.items@, 0),
{
    let mut lines: Vec<String> = Vec::new();
    let indent: Vec<char> = Vec::new();
    assert(indent@ =~= tabs(0));
    assert(strings_view(lines@) =~= Seq::<Seq<char>>::empty());
    push_outline(&mut lines, &header.items, &indent, Ghost(0));
    lines
}

/// The comment, date and version of a header, as (name, text) pairs.
pub fn vcd_header_entries(header: &VcdHeader) -> (entries: Vec<(String, String)>)
    ensures
        entries_view(entries@) == header_entries(*header),
{
    let mut entries: Vec<(String, String)> = Vec::new();
    let comment = vec!['c', 'o', 'm', 'm', 'e', 'n', 't'];
    let date = vec!['d', 'a', 't', 'e'];
    let version = vec!['v', 'e', 'r', 's', 'i', 'o', 'n'];
    assert(entries_view(entries@) =~= Seq::<(Seq<char>, Seq<char>)>::empty());
    push_entry(&mut entries, &comment, &header.comment, Ghost(comment_label()));
    push_entry(&mut entries, &date, &header.date, Ghost(date_label()));
    push_entry(&mut entries, &version, &header.version, Ghost(version_label()));
    assert(entries_view(entries@) =~= header_entries(*header));
    entries
}

/// The time scale of a header; one picosecond when it declares none.
pub open spec fn header_timescale(h: VcdHeader) -> (u64, WaveTimescaleUnit) {
    match h.timescale {
        Some((n, u)) => (n as u64, u),
        None => (1, WaveTimescaleUnit::PS),
    }
}

pub fn vcd_timescale(header: &VcdHeader) -> (t: (u64, WaveTimescaleUnit))
    ensures
        t == header_timescale(*header),
{
    match &header.timescale {
        Some((n, u)) => (*n as u64, *u),
        None => (1, WaveTimescaleUnit::PS),
    }
}

/// The pattern of a timestamp line: `#` followed by word characters.
pub open spec fn timestamp_pattern() -> Seq<char> {
    "^#(\\w+)$"@
}

/// Number of lines, counted from the end, that are searched for a timestamp.
pub open spec fn timestamp_scan_lines() -> nat {
    1025
}

/// Reads lines one after another and stops at the first line that is a
/// timestamp (`#` and word characters): its number is the result (none when
/// it is not a number). With no timestamp line the result is none.
pub open spec fn scan_timestamps(lines: Seq<String>) -> Option<u64>
    decreases lines.len(),
{
    if lines.len() == 0 {
        None
    } else {
        match regex_capture(timestamp_pattern(), lines[0]@, 1) {
            Some(c) => spec_parse_u64(c),
            None => scan_timestamps(lines.drop_first()),
        }
    }
}

/// The lines of `lines_from_end` that are searched: the first 1025 of them,
/// or all when there are fewer.
pub open spec fn timestamp_window(lines_from_end: Seq<String>) -> Seq<String> {
    lines_from_end.take(
        if lines_from_end.len() < timestamp_scan_lines() {
            lines_from_end.len() as int
        } else {
            timestamp_scan_lines() as int
        },
    )
}

/// Reading `lines` up to `i` found no timestamp line.
proof fn lemma_scan_skip(lines: Seq<String>, i: int)
    requires
        0 <= i < lines.len(),
        regex_capture(timestamp_pattern(), lines[i]@, 1) is None,
    ensures
        scan_timestamps(lines.skip(i)) == scan_timestamps(lines.skip(i + 1)),
{
    assert(lines.skip(i).drop_first() =~= lines.skip(i + 1));
}

/// The last timestamp of a VCD file. `lines_from_end` holds the file's lines
/// from the last one backwards; among the first 1025 of them, the first
/// timestamp line met (the last one of the file) decides.
pub fn vcd_get_last_timestamp(lines_from_end: &Vec<String>) -> (r: Option<u64>)
    ensures
        r == scan_timestamps(timestamp_window(lines_from_end@)),
{
    let limit_lines: usize = 1024;
    let ghost window = timestamp_window(lines_from_end@);
    let mut i: usize = 0;
    assert(window.skip(0) =~= window);
    while i < lines_from_end.len() && i <= limit_lines
        invariant
            i <= lines_from_end.len(),
            i <= timestamp_scan_lines(),
            limit_lines + 1 == timestamp_scan_lines(),
            window == timestamp_window(lines_from_end@),
            i <= window.len(),
            window.len() == lines_from_end@.len() || window.len() == timestamp_scan_lines(),
            forall|k: int| 0 <= k < window.len() ==> window[k] == lines_from_end@[k],
            scan_timestamps(window) == scan_timestamps(window.skip(i as int)),
        decreases lines_from_end.len() - i,
    {
        let line = &lines_from_end[i];
        let cap = regex_capture_group("^#(\\w+)$", line.as_str(), 1);
        assert(window[i as int] == *line);
        assert(window.skip(i as int)[0] == *line);
        match cap {
            Some(number) => {
                let chars = string_to_chars(&number);
                return parse_u64(&chars);
            },
            None => {
                proof {
                    lemma_scan_skip(window, i as int);
                }
            },
        }
        i = i + 1;
    }
    assert(window.skip(i as int).len() == 0);
    None
}

/// The VCD wave format.
pub struct Vcd;

impl WavePreLoader for Vcd {
    fn last_timestamp(lines_from_end: &Vec<String>) -> (r: Option<u64>)
        ensures
            r == scan_timestamps(timestamp_window(lines_from_end@)),
    {
        vcd_get_last_timestamp(lines_from_end)
    }
}

/// Progress of a load, reported now and then while the value changes are read:
/// how far the current timestamp is past the first one, and the current
/// timestamp. Divided by the last timestamp of the file, `elapsed` gives the
/// fraction done.
#[derive(Clone, Copy, Debug, PartialEq, Eq, Structural)]
pub struct LoadProgress {
    pub elapsed: u64,
    pub timestamp: u64,
}

/// The state of loading the value changes of a VCD file, one command at a time.
#[derive(Debug)]
pub struct VcdLoader {
    /// Time of the changes read now.
    pub timestamp: u64,
    /// Smallest timestamp read so far.
    pub time_start: u64,
    /// Largest timestamp read so far.
    pub time_stop: u64,
    /// Least advance of time between two progress reports; none when zero.
    pub timestamp_skip: u64,
    /// Timestamp of the last progress report.
    pub timestamp_notified: u64,
    /// Last timestamp of the file, when it was found beforehand.
    pub last_timestamp: Option<u64>,
    /// Value changes of each signal, in the order read.
    pub data: HashMap<u64, Vec<WaveDataItem>>,
}

/// A timestamp `t` is weighed for a progress report.
pub open spec fn notify_checked(l: VcdLoader, t: u64) -> bool {
    l.timestamp_skip > 0 && l.time_start < t && l.last_timestamp is Some
}

/// Reading timestamp `t` reports progress.
pub open spec fn notify_fires(l: VcdLoader, t: u64) -> bool {
    notify_checked(l, t) && l.timestamp_notified + l.timestamp_skip < t
}

/// The loaders agree on everything but the recorded changes.
pub open spec fn same_times(a: VcdLoader, b: VcdLoader) -> bool {
    &&& a.timestamp == b.timestamp
    &&& a.time_start == b.time_start
    &&& a.time_stop == b.time_stop
    &&& a.timestamp_skip == b.timestamp_skip
    &&& a.timestamp_notified == b.timestamp_notified
    &&& a.last_timestamp == b.last_timestamp
}

/// `after` is `before` with one change appended to the list of `id`: the one
/// that compressing `bits` read at `timestamp` gives. Other lists are untouched.
pub open spec fn appended(
    before: Map<u64, Vec<WaveDataItem>>,
    after: Map<u64, Vec<WaveDataItem>>,
    id: u64,
    bits: Seq<WireValue>,
    timestamp: u64,
) -> bool {
    &&& after.dom() == before.dom().insert(id)
    &&& forall|k: u64| k != id && before.dom().contains(k) ==> after[k] == before[k]
    &&& list_of(after, id).len() == list_of(before, id).len() + 1
    &&& list_of(after, id).drop_last() == list_of(before, id)
    &&& compressed_raw(bits, timestamp, list_of(after, id).last())
}

/// Every list is in order of time and no change is later than the current time.
pub open spec fn loader_ordered(l: VcdLoader) -> bool {
    forall|id: u64|
        #![trigger l.data@.dom().contains(id)]
        l.data@.dom().contains(id) ==> sorted_by_time(l.data@[id]@) && forall|k: int|
            0 <= k < l.data@[id]@.len() ==> #[trigger] l.data@[id]@[k].timestamp <= l.timestamp
}

/// Appends a change to the list of `id`, starting the list when there is none.
fn push_change(data: &mut HashMap<u64, Vec<WaveDataItem>>, id: u64, item: WaveDataItem)
    ensures
        final(data)@.dom() == old(data)@.dom().insert(id),
        forall|k: u64| k != id && old(data)@.dom().contains(k) ==> final(data)@[k] == old(data)@[k],
        list_of(final(data)@, id) == list_of(old(data)@, id).push(item),
        list_of(final(data)@, id).drop_last() == list_of(old(data)@, id),
{
    let list = data.remove(&id);
    match list {
        Some(mut list) => {
            list.push(item);
            data.insert(id, list);
        },
        None => {
            let mut list: Vec<WaveDataItem> = Vec::new();
            list.push(item);
            data.insert(id, list);
        },
    }
    assert(data@.dom() =~= old(data)@.dom().insert(id));
    assert(list_of(data@, id).drop_last() =~= list_of(old(data)@, id));
}

impl VcdLoader {
    /// A loader before any command; `last_timestamp` is the last timestamp of
    /// the file when it was found beforehand, and sets how often progress is
    /// reported (every thousandth of it).
    pub fn new(last_timestamp: Option<u64>) -> (l: Self)
        ensures
            l.timestamp == 0,
            l.time_start == 0xfffffffffffff,
            l.time_stop == 0,
            l.timestamp_skip == match last_timestamp {
                Some(last) => last / 1000,
                None => 0,
            },
            l.timestamp_notified == 0,
            l.last_timestamp == last_timestamp,
            l.data@ == Map::<u64, Vec<WaveDataItem>>::empty(),
            loader_ordered(l),
    {
        let timestamp_skip = match last_timestamp {
            Some(last) => last / 1000,
            None => 0,
        };
        VcdLoader {
            timestamp: 0,
            time_start: 0xfffffffffffff,
            time_stop: 0,
            timestamp_skip,
            timestamp_notified: 0,
            last_timestamp,
            data: HashMap::new(),
        }
    }

    /// Whether reading timestamp `t` would overflow when weighing a progress
    /// report (the last report plus the least advance does not fit in 64 bits).
    pub fn timestamp_overflows(&self, t: u64) -> (r: bool)
        ensures
            r == (notify_checked(*self, t) && self.timestamp_notified + self.timestamp_skip
                > u64::MAX),
    {
        let checked = self.timestamp_skip > 0 && self.time_start < t && self.last_timestamp.is_some();
        checked && self.timestamp_notified > u64::MAX - self.timestamp_skip
    }

    /// Reads one command. A timestamp moves the time and widens the range of
    /// times; it answers a progress report when it is weighed and lies more than
    /// `timestamp_skip` past the last report. A value change is compressed and
    /// appended to its signal's list under the current time; a vector change
    /// without any bit is refused. Other commands change nothing.
    pub fn on_command(&mut self, command: VcdCommand) -> (r: Result<Option<LoadProgress>, WaveError>)
        requires
            command matches VcdCommand::Timestamp(t) && notify_checked(*old(self), t)
                ==> old(self).timestamp_notified + old(self).timestamp_skip <= u64::MAX,
        ensures
            match command {
                VcdCommand::Timestamp(t) => {
                    &&& r == Ok::<Option<LoadProgress>, WaveError>(
                        if notify_fires(*old(self), t) {
                            Some(LoadProgress { elapsed: (t - old(self).time_start) as u64, timestamp: t })
                        } else {
                            None
                        },
                    )
                    &&& final(self).timestamp == t
                    &&& final(self).time_start == if t < old(self).time_start {
                        t
                    } else {
                        old(self).time_start
                    }
                    &&& final(self).time_stop == if old(self).time_stop < t {
                        t
                    } else {
                        old(self).time_stop
                    }
                    &&& final(self).time_start <= t <= final(self).time_stop
                    &&& final(self).timestamp_notified == if notify_fires(*old(self), t) {
                        t
                    } else {
                        old(self).timestamp_notified
                    }
                    &&& final(self).timestamp_skip == old(self).timestamp_skip
                    &&& final(self).last_timestamp == old(self).last_timestamp
                    &&& final(self).data@ == old(self).data@
                },
                VcdCommand::ChangeScalar(id, v) => {
                    &&& r == Ok::<Option<LoadProgress>, WaveError>(None)
                    &&& same_times(*final(self), *old(self))
                    &&& appended(old(self).data@, final(self).data@, id, seq![v], old(self).timestamp)
                },
                VcdCommand::ChangeVector(id, v) => if v@.len() == 0 {
                    &&& r == Err::<Option<LoadProgress>, WaveError>(WaveError::CompressInvalidData)
                    &&& same_times(*final(self), *old(self))
                    &&& final(self).data@ == old(self).data@
                } else {
                    &&& r == Ok::<Option<LoadProgress>, WaveError>(None)
                    &&& same_times(*final(self), *old(self))
                    &&& appended(old(self).data@, final(self).data@, id, v@, old(self).timestamp)
                },
                VcdCommand::Other => {
                    &&& r == Ok::<Option<LoadProgress>, WaveError>(None)
                    &&& same_times(*final(self), *old(self))
                    &&& final(self).data@ == old(self).data@
                },
            },
            loader_ordered(*old(self)) && (command matches VcdCommand::Timestamp(t) ==> t
                >= old(self).timestamp) ==> loader_ordered(*final(self)),
    {
        match command {
            VcdCommand::Timestamp(t) => {
                if self.time_start > t {
                    self.time_start = t;
                }
                if self.time_stop < t {
                    self.time_stop = t;
                }
                self.timestamp = t;
                let mut report: Option<LoadProgress> = None;
                if self.timestamp_skip > 0 && self.timestamp > self.time_start {
                    match self.last_timestamp {
                        Some(_) => {
                            if self.timestamp_notified + self.timestamp_skip < self.timestamp {
                                report = Some(
                                    LoadProgress {
                                        elapsed: self.timestamp - self.time_start,
                                        timestamp: self.timestamp,
                                    },
                                );
                                self.timestamp_notified = self.timestamp;
                            }
                        },
                        None => {},
                    }
                }
                assert(loader_ordered(*old(self)) && t >= old(self).timestamp ==> loader_ordered(
                    *self,
                )) by {
                    if loader_ordered(*old(self)) && t >= old(self).timestamp {
                        assert forall|id: u64| #[trigger]
                            self.data@.dom().contains(id) implies sorted_by_time(self.data@[id]@)
                            && forall|k: int|
                            0 <= k < self.data@[id]@.len() ==> #[trigger] self.data@[id]@[k].timestamp
                                <= self.timestamp by {
                            assert(old(self).data@.dom().contains(id));
                        }
                    }
                }
                Ok(report)
            },
            VcdCommand::ChangeScalar(id, v) => {
                let mut bits: Vec<WireValue> = Vec::new();
                bits.push(v);
                assert(bits@ =~= seq![v]);
                let raw = WaveDataItem { value: WaveDataValue::Raw(bits), timestamp: self.timestamp };
                let compressed = raw.compress();
                match compressed {
                    Ok(item) => {
                        let ghost before = *self;
                        push_change(&mut self.data, id, item);
                        proof {
                            self.lemma_ordered_after_push(before, id, item);
                        }
                        Ok(None)
                    },
                    Err(e) => Err(e),
                }
            },
            VcdCommand::ChangeVector(id, v) => {
                let ghost bits = v@;
                let raw = WaveDataItem { value: WaveDataValue::Raw(v), timestamp: self.timestamp };
                let compressed = raw.compress();
                match compressed {
                    Ok(item) => {
                        let ghost before = *self;
                        push_change(&mut self.data, id, item);
                        proof {
                            self.lemma_ordered_after_push(before, id, item);
                        }
                        Ok(None)
                    },
                    Err(e) => Err(e),
                }
            },
            VcdCommand::Other => Ok(None),
        }
    }

    /// The loaded wave: the header's time scale, texts, signals, paths and
    /// scope tree, the range of timestamps read, and the changes read.
    pub fn finish(self, header: &VcdHeader) -> (r: Result<Wave, WaveError>)
        ensures
            r is Ok,
            r.unwrap().info.timescale == header_timescale(*header),
            r.unwrap().info.range == (self.time_start, self.time_stop),
            entries_view(r.unwrap().info.headers@) == header_entries(*header),
            r.unwrap().info.code_signal_info@ == items_name_walk(header.items@, Map::empty()),
            paths_view(r.unwrap().info.code_paths@) == items_path_walk(
                header.items@,
                Seq::empty(),
                Map::empty(),
            ).1,
            tree_nodes(r.unwrap().info.tree) == seq![(0nat, WaveTreeNode::WaveRoot)] + deeper(
                level_nodes(merge_items(header.items@), 0),
            ),
            r.unwrap().data == self.data,
    {
        let code_signal_info = vcd_code_name(header);
        let code_paths = match vcd_code_path(header) {
            Ok(p) => p,
            Err(e) => {
                return Err(e);
            },
        };
        let tree = match vcd_tree(header) {
            Ok(t) => t,
            Err(e) => {
                return Err(e);
            },
        };
        let headers = vcd_header_entries(header);
        let timescale = vcd_timescale(header);
        Ok(
            Wave {
                info: WaveInfo {
                    timescale,
                    range: (self.time_start, self.time_stop),
                    headers,
                    code_signal_info,
                    code_paths,
                    tree,
                },
                data: self.data,
            },
        )
    }

    proof fn lemma_ordered_after_push(self, before: VcdLoader, id: u64, item: WaveDataItem)
        requires
            same_times(self, before),
            item.timestamp == before.timestamp,
            self.data@.dom() == before.data@.dom().insert(id),
            forall|k: u64| k != id && before.data@.dom().contains(k) ==> self.data@[k] == before.data@[k],
            list_of(self.data@, id) == list_of(before.data@, id).push(item),
        ensures
            loader_ordered(before) ==> loader_ordered(self),
    {
        if loader_ordered(before) {
            assert forall|i: u64| #[trigger] self.data@.dom().contains(i) implies sorted_by_time(
                self.data@[i]@,
            ) && forall|k: int|
                0 <= k < self.data@[i]@.len() ==> #[trigger] self.data@[i]@[k].timestamp
                    <= self.timestamp by {
                if i != id {
                    assert(before.data@.dom().contains(i));
                } else {
                    let l = self.data@[i]@;
                    let b = list_of(before.data@, id);
                    assert(l == b.push(item));
                    if before.data@.dom().contains(id) {
                        assert(b == before.data@[id]@);
                    }
                    assert forall|x: int, y: int| 0 <= x <= y < l.len() implies l[x].timestamp
                        <= l[y].timestamp by {
                        if y < l.len() - 1 {
                            assert(l[x] == b[x] && l[y] == b[y]);
                        } else if x < l.len() - 1 {
                            assert(l[x] == b[x]);
                        }
                    }
                    assert forall|k: int| 0 <= k < l.len() implies #[trigger] l[k].timestamp
                        <= self.timestamp by {
                        if k < l.len() - 1 {
                            assert(l[k] == b[k]);
                        }
                    }
                }
            }
        }
    }
}

} // verus!
