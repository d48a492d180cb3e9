//! What the vcd crate reads from the bytes of a VCD file, and how the library
//! takes it over: kinds, units, values and id codes come as the crate prints
//! them, and are read back into the library's own types.
use crate::text::{chars_equal, string_to_chars};
use crate::wave::vcd_parser::{
    spec_id_code, vcd_id_code, VcdCommand, VcdHeader, VcdScope, VcdScopeItem, VcdVar,
};
use crate::wave::{WaveScopeType, WaveSignalType, WaveTimescaleUnit, WireValue};
use vstd::prelude::*;

verus! {

/// An item of a header that the vcd crate read, carried as it is.
#[verifier::external_type_specification]
#[verifier::external_body]
pub struct ExVcdScopeItem(vcd::ScopeItem);

/// A command that the vcd crate read, carried as it is.
#[verifier::external_type_specification]
#[verifier::external_body]
pub struct ExVcdCommand(vcd::Command);

/// A `$var` as the vcd crate read it; its kind and id code as the crate
/// prints them.
#[derive(Debug)]
pub struct VcdReadVar {
    pub var_type: String,
    pub size: u32,
    pub code: String,
    pub reference: String,
}

/// A `$scope` as the vcd crate read it; its kind as the crate prints it.
#[derive(Debug)]
pub struct VcdReadScope {
    pub scope_type: String,
    pub identifier: String,
    pub children: Vec<VcdReadItem>,
}

/// An item of a scope as the vcd crate read it.
#[derive(Debug)]
pub enum VcdReadItem {
    Scope(VcdReadScope),
    Var(VcdReadVar),
}

/// A header as the vcd crate read it; the unit of the time scale as the crate
/// prints it.
#[derive(Debug)]
pub struct VcdReadHeader {
    pub comment: Option<String>,
    pub date: Option<String>,
    pub version: Option<String>,
    pub timescale: Option<(u32, String)>,
    pub items: Vec<VcdReadItem>,
}

/// A command of the value-change section as the vcd crate read it: id codes
/// and values as the crate prints them (a vector's values one character each,
/// in the order the file writes them).
#[derive(Debug)]
pub enum VcdReadCommand {
    Timestamp(u64),
    ChangeScalar(String, String),
    ChangeVector(String, String),
    Other,
}

/// What the vcd crate reads from the bytes of a VCD file: none when it refuses
/// them, else the header and the commands that follow it.
pub uninterp spec fn vcd_parsed(data: Seq<u8>) -> Option<(VcdReadHeader, Seq<VcdReadCommand>)>;

/// Converts an item of a header that the vcd crate read, and the items under
/// it, one for one; kinds and id codes go through the crate's `Display`.
#[verifier::external_body]
fn vcd_read_item(item: &vcd::ScopeItem) -> VcdReadItem {
    match item {
        vcd::ScopeItem::Scope(s) => VcdReadItem::Scope(VcdReadScope {
            scope_type: s.scope_type.to_string(),
            identifier: s.identifier.clone(),
            children: s.children.iter().map(vcd_read_item).collect(),
        }),
        vcd::ScopeItem::Var(v) => VcdReadItem::Var(VcdReadVar {
            var_type: v.var_type.to_string(),
            size: v.size,
            code: v.code.to_string(),
            reference: v.reference.clone(),
        }),
    }
}

/// Converts a command that the vcd crate read, one for one; id codes and
/// values go through the crate's `Display`, and every command a wave does not
/// read becomes `Other`.
#[verifier::external_body]
fn vcd_read_command(command: vcd::Command) -> VcdReadCommand {
    match command {
        vcd::Command::Timestamp(t) => VcdReadCommand::Timestamp(t),
        vcd::Command::ChangeScalar(i, v) => VcdReadCommand::ChangeScalar(i.to_string(), v.to_string()),
        vcd::Command::ChangeVector(i, v) => {
            VcdReadCommand::ChangeVector(i.to_string(), v.iter().map(|b| b.to_string()).collect())
        },
        _ => VcdReadCommand::Other,
    }
}

/// Calls vcd `Parser::new` on the bytes, then `Parser::parse_header` and the
/// parser's iterator for the commands that follow, converted by
/// `vcd_read_item` and `vcd_read_command`. The result is none when the header
/// or any command fails to parse, and is otherwise what [`vcd_parsed`] names:
/// the crate's reading depends on the bytes alone.
#[verifier::external_body]
pub(crate) fn vcd_parse(data: &[u8]) -> (r: Option<(VcdReadHeader, Vec<VcdReadCommand>)>)
    ensures
        r is None <==> vcd_parsed(data@) is None,
        r matches Some((h, c)) ==> vcd_parsed(data@) == Some((h, c@)),
{
    let mut parser = vcd::Parser::new(data);
    let h = parser.parse_header().ok()?;
    let commands = parser.collect::<Result<Vec<vcd::Command>, _>>().ok()?;
    let header = VcdReadHeader {
        comment: h.comment,
        date: h.date,
        version: h.version,
        timescale: h.timescale.map(|(n, u)| (n, u.to_string())),
        items: h.items.iter().map(vcd_read_item).collect(),
    };
    Some((header, commands.into_iter().map(vcd_read_command).collect()))
}

/// Some kind of signal has this name.
pub open spec fn signal_type_known(name: Seq<char>) -> bool {
    exists|t: WaveSignalType| t.spec_name() == name
}

/// Some kind of scope has this name.
pub open spec fn scope_type_known(name: Seq<char>) -> bool {
    exists|t: WaveScopeType| t.spec_name() == name
}

/// Some time unit has this name.
pub open spec fn timescale_unit_known(name: Seq<char>) -> bool {
    exists|u: WaveTimescaleUnit| u.spec_name() == name
}

/// The kind of signal with the given name.
pub fn signal_type_named(name: &String) -> (r: Option<WaveSignalType>)
    ensures
        r matches Some(t) ==> t.spec_name() == name@,
        r is None <==> !signal_type_known(name@),
{
    let all: Vec<WaveSignalType> = vec![
        WaveSignalType::Event,
        WaveSignalType::Integer,
        WaveSignalType::Parameter,
        WaveSignalType::Real,
        WaveSignalType::Reg,
        WaveSignalType::Supply0,
        WaveSignalType::Supply1,
        WaveSignalType::Time,
        WaveSignalType::Tri,
        WaveSignalType::TriAnd,
        WaveSignalType::TriOr,
        WaveSignalType::TriReg,
        WaveSignalType::Tri0,
        WaveSignalType::Tri1,
        WaveSignalType::WAnd,
        WaveSignalType::Wire,
        WaveSignalType::WOr,
        WaveSignalType::String,
    ];
    let chars = string_to_chars(name);
    let mut i: usize = 0;
    while i < all.len()
        invariant
            i <= all@.len(),
            chars@ == name@,
            forall|t: WaveSignalType| #[trigger] all@.contains(t),
            forall|k: int| 0 <= k < i ==> (#[trigger] all@[k]).spec_name() != name@,
        decreases all.len() - i,
    {
        let n = string_to_chars(&all[i].to_string());
        if chars_equal(&n, &chars) {
            return Some(all[i]);
        }
        i = i + 1;
    }
    proof {
        assert forall|t: WaveSignalType| t.spec_name() != name@ by {
            let k = all@.index_of(t);
            assert(all@[k] == t);
        }
    }
    None
}

/// The kind of scope with the given name.
pub fn scope_type_named(name: &String) -> (r: Option<WaveScopeType>)
    ensures
        r matches Some(t) ==> t.spec_name() == name@,
        r is None <==> !scope_type_known(name@),
{
    let all: Vec<WaveScopeType> = vec![
        WaveScopeType::Module,
        WaveScopeType::Task,
        WaveScopeType::Function,
        WaveScopeType::Begin,
        WaveScopeType::Fork,
    ];
    let chars = string_to_chars(name);
    let mut i: usize = 0;
    while i < all.len()
        invariant
            i <= all@.len(),
            chars@ == name@,
            forall|t: WaveScopeType| #[trigger] all@.contains(t),
            forall|k: int| 0 <= k < i ==> (#[trigger] all@[k]).spec_name() != name@,
        decreases all.len() - i,
    {
        let n = string_to_chars(&all[i].to_string());
        if chars_equal(&n, &chars) {
            return Some(all[i]);
        }
        i = i + 1;
    }
    proof {
        assert forall|t: WaveScopeType| t.spec_name() != name@ by {
            let k = all@.index_of(t);
            assert(all@[k] == t);
        }
    }
    None
}

/// The time unit with the given name.
pub fn timescale_unit_named(name: &String) -> (r: Option<WaveTimescaleUnit>)
    ensures
        r matches Some(u) ==> u.spec_name() == name@,
        r is None <==> !timescale_unit_known(name@),
{
    let all: Vec<WaveTimescaleUnit> = vec![
        WaveTimescaleUnit::S,
        WaveTimescaleUnit::MS,
        WaveTimescaleUnit::US,
        WaveTimescaleUnit::NS,
        WaveTimescaleUnit::PS,
        WaveTimescaleUnit::FS,
    ];
    let chars = string_to_chars(name);
    let mut i: usize = 0;
    while i < all.len()
        invariant
            i <= all@.len(),
            chars@ == name@,
            forall|u: WaveTimescaleUnit| #[trigger] all@.contains(u),
            forall|k: int| 0 <= k < i ==> (#[trigger] all@[k]).spec_name() != name@,
        decreases all.len() - i,
    {
        let n = all[i].name_chars();
        if chars_equal(&n, &chars) {
            return Some(all[i]);
        }
        i = i + 1;
    }
    proof {
        assert forall|u: WaveTimescaleUnit| u.spec_name() != name@ by {
            let k = all@.index_of(u);
            assert(all@[k] == u);
        }
    }
    None
}

/// Whether `c` is how a wire value is printed: `0`, `1`, `x` or `z`.
pub open spec fn wire_char(c: char) -> bool {
    c == '0' || c == '1' || c == 'x' || c == 'z'
}

/// The wire value printed as `c`.
pub fn wire_value_of(c: char) -> (r: Option<WireValue>)
    ensures
        r matches Some(w) ==> w.spec_char() == c,
        r is None <==> !wire_char(c),
{
    if c == '0' {
        Some(WireValue::V0)
    } else if c == '1' {
        Some(WireValue::V1)
    } else if c == 'x' {
        Some(WireValue::X)
    } else if c == 'z' {
        Some(WireValue::Z)
    } else {
        None
    }
}

/// Every character is a printed wire value.
pub open spec fn values_known(text: Seq<char>) -> bool {
    forall|k: int| 0 <= k < text.len() ==> wire_char(#[trigger] text[k])
}

/// The wire values printed as `text`, one character each.
pub open spec fn values_are(text: Seq<char>, bits: Seq<WireValue>) -> bool {
    &&& bits.len() == text.len()
    &&& forall|k: int| 0 <= k < bits.len() ==> (#[trigger] bits[k]).spec_char() == text[k]
}

/// Reads printed wire values back, one character each; none when a character
/// is not a wire value.
pub fn wire_values_of(text: &String) -> (r: Option<Vec<WireValue>>)
    ensures
        r matches Some(bits) ==> values_are(text@, bits@),
        r is None <==> !values_known(text@),
{
    let chars = string_to_chars(text);
    let mut bits: Vec<WireValue> = Vec::new();
    let mut i: usize = 0;
    while i < chars.len()
        invariant
            i <= chars@.len(),
            chars@ == text@,
            values_are(chars@.take(i as int), bits@),
            values_known(chars@.take(i as int)),
        decreases chars.len() - i,
    {
        match wire_value_of(chars[i]) {
            Some(w) => {
                bits.push(w);
            },
            None => {
                assert(!values_known(text@)) by {
                    assert(chars@[i as int] == text@[i as int]);
                }
                return None;
            },
        }
        i = i + 1;
    }
    assert(chars@.take(i as int) =~= text@);
    assert(values_are(text@, bits@));
    assert forall|k: int| 0 <= k < text@.len() implies wire_char(#[trigger] text@[k]) by {
        assert(bits@[k].spec_char() == text@[k]);
    }
    Some(bits)
}

/// A `$var` read back: its kind by name, its id code's number, and the rest
/// as read.
pub open spec fn read_var_is(r: VcdReadVar, v: VcdVar) -> bool {
    &&& v.var_type.spec_name() == r.var_type@
    &&& v.size == r.size
    &&& spec_id_code(r.code@) == Some(v.code)
    &&& v.reference@ == r.reference@
}

/// A `$var` can be read back: its kind is known and its id code stands for a
/// number.
pub open spec fn read_var_ok(r: VcdReadVar) -> bool {
    signal_type_known(r.var_type@) && spec_id_code(r.code@) is Some
}

/// Items read back one for one, in order.
pub open spec fn read_items_are(r: Seq<VcdReadItem>, s: Seq<VcdScopeItem>) -> bool
    decreases r,
{
    if r.len() == 0 {
        s.len() == 0
    } else {
        &&& s.len() == r.len()
        &&& read_items_are(r.drop_last(), s.drop_last())
        &&& read_item_is(r.last(), s.last())
    }
}

/// An item read back: a scope with its kind by name, its name as read and
/// its items read back; a `$var` read back.
pub open spec fn read_item_is(r: VcdReadItem, s: VcdScopeItem) -> bool
    decreases r,
{
    match r {
        VcdReadItem::Scope(rs) => match s {
            VcdScopeItem::Scope(ss) => {
                &&& ss.scope_type.spec_name() == rs.scope_type@
                &&& ss.identifier@ == rs.identifier@
                &&& read_items_are(rs.children@, ss.children@)
            },
            _ => false,
        },
        VcdReadItem::Var(rv) => match s {
            VcdScopeItem::Var(v) => read_var_is(rv, v),
            _ => false,
        },
    }
}

/// Every item, and every item under it, can be read back.
pub open spec fn read_items_ok(r: Seq<VcdReadItem>) -> bool
    decreases r,
{
    if r.len() == 0 {
        true
    } else {
        read_items_ok(r.drop_last()) && read_item_ok(r.last())
    }
}

pub open spec fn read_item_ok(r: VcdReadItem) -> bool
    decreases r,
{
    match r {
        VcdReadItem::Scope(rs) => scope_type_known(rs.scope_type@) && read_items_ok(
            rs.children@,
        ),
        VcdReadItem::Var(rv) => read_var_ok(rv),
    }
}

/// Reads items back into the library's types; none when a kind is unknown or
/// an id code stands for no number.
pub fn read_items(items: &Vec<VcdReadItem>) -> (r: Option<Vec<VcdScopeItem>>)
    ensures
        r matches Some(v) ==> read_items_are(items@, v@),
        r is None <==> !read_items_ok(items@),
    decreases items@,
{
    let mut out: Vec<VcdScopeItem> = Vec::new();
    let mut i: usize = 0;
    assert(items@.take(0) =~= Seq::<VcdReadItem>::empty());
    while i < items.len()
        invariant
            i <= items.len(),
            read_items_are(items@.take(i as int), out@),
            read_items_ok(items@.take(i as int)),
        decreases items.len() - i,
    {
        assert(items@.take(i + 1).drop_last() =~= items@.take(i as int));
        assert(items@.take(i + 1).last() == items@[i as int]);
        let item = match &items[i] {
            VcdReadItem::Scope(scope) => {
                assert(decreases_to!(items@ => scope.children@)) by {
                    assert(decreases_to!(items@ => items@[i as int]));
                }
                let t = scope_type_named(&scope.scope_type);
                let children = read_items(&scope.children);
                match (t, children) {
                    (Some(t), Some(children)) => {
                        let item = VcdScopeItem::Scope(
                            VcdScope { scope_type: t, identifier: scope.identifier.clone(), children },
                        );
                        assert(read_item_is(items@[i as int], item));
                        assert(read_item_ok(items@[i as int]));
                        item
                    },
                    _ => {
                        assert(!read_items_ok(items@)) by {
                            if read_items_ok(items@) {
                                lemma_read_items_ok_prefix(items@, i + 1);
                                assert(read_items_ok(items@.take(i + 1)));
                                assert(read_item_ok(items@[i as int]));
                            }
                        }
                        return None;
                    },
                }
            },
            VcdReadItem::Var(var) => {
                let t = signal_type_named(&var.var_type);
                let code = vcd_id_code(&var.code);
                match (t, code) {
                    (Some(t), Some(code)) => {
                        let item = VcdScopeItem::Var(
                            VcdVar {
                                var_type: t,
                                size: var.size,
                                code,
                                reference: var.reference.clone(),
                            },
                        );
                        assert(read_item_is(items@[i as int], item));
                        assert(read_item_ok(items@[i as int]));
                        item
                    },
                    _ => {
                        assert(!read_items_ok(items@)) by {
                            if read_items_ok(items@) {
                                lemma_read_items_ok_prefix(items@, i + 1);
                                assert(read_items_ok(items@.take(i + 1)));
                                assert(read_item_ok(items@[i as int]));
                            }
                        }
                        return None;
                    },
                }
            },
        };
        let ghost before = out@;
        out.push(item);
        assert(out@.drop_last() =~= before);
        i = i + 1;
    }
    assert(items@.take(items.len() as int) =~= items@);
    Some(out)
}

/// Items that can be read back begin with items that can.
proof fn lemma_read_items_ok_prefix(r: Seq<VcdReadItem>, n: int)
    requires
        0 <= n <= r.len(),
        read_items_ok(r),
    ensures
        read_items_ok(r.take(n)),
    decreases r.len(),
{
    if n < r.len() {
        assert(r.drop_last().take(n) =~= r.take(n));
        lemma_read_items_ok_prefix(r.drop_last(), n);
    } else {
        assert(r.take(n) =~= r);
    }
}

/// A header read back: its texts as read, the unit of its time scale by name
/// and its items read back.
pub open spec fn read_header_is(r: VcdReadHeader, h: VcdHeader) -> bool {
    &&& h.comment == r.comment
    &&& h.date == r.date
    &&& h.version == r.version
    &&& match (r.timescale, h.timescale) {
        (None, None) => true,
        (Some((n, u)), Some((m, v))) => n == m && v.spec_name() == u@,
        _ => false,
    }
    &&& read_items_are(r.items@, h.items@)
}

/// A header can be read back: the unit of its time scale is known and its
/// items can be read back.
pub open spec fn read_header_ok(r: VcdReadHeader) -> bool {
    &&& (r.timescale matches Some((n, u)) ==> timescale_unit_known(u@))
    &&& read_items_ok(r.items@)
}

/// Reads a header back into the library's types; none when it cannot be.
pub fn read_header(r: VcdReadHeader) -> (h: Option<VcdHeader>)
    ensures
        h matches Some(h) ==> read_header_is(r, h),
        h is None <==> !read_header_ok(r),
{
    let items = read_items(&r.items);
    let timescale = match &r.timescale {
        Some((n, u)) => match timescale_unit_named(u) {
            Some(v) => Some((*n, v)),
            None => {
                return None;
            },
        },
        None => None,
    };
    match items {
        Some(items) => Some(
            VcdHeader { comment: r.comment, date: r.date, version: r.version, timescale, items },
        ),
        None => None,
    }
}

/// A command read back: a change names its variable by the number of its id
/// code and its values as printed; the rest as read.
pub open spec fn read_command_is(r: VcdReadCommand, c: VcdCommand) -> bool {
    match r {
        VcdReadCommand::Timestamp(t) => c matches VcdCommand::Timestamp(u) && u == t,
        VcdReadCommand::ChangeScalar(code, v) => c matches VcdCommand::ChangeScalar(id, w) && spec_id_code(code@)
            == Some(id) && v@ == seq![w.spec_char()],
        VcdReadCommand::ChangeVector(code, v) => c matches VcdCommand::ChangeVector(id, bits)
            && spec_id_code(code@) == Some(id) && values_are(v@, bits@),
        VcdReadCommand::Other => c is Other,
    }
}

/// A command can be read back: its id code stands for a number and its values
/// are printed wire values (one for a scalar change).
pub open spec fn read_command_ok(r: VcdReadCommand) -> bool {
    match r {
        VcdReadCommand::ChangeScalar(code, v) => spec_id_code(code@) is Some && v@.len() == 1
            && wire_char(v@[0]),
        VcdReadCommand::ChangeVector(code, v) => spec_id_code(code@) is Some && values_known(v@),
        _ => true,
    }
}

/// Commands read back one for one, in order.
pub open spec fn read_commands_are(r: Seq<VcdReadCommand>, c: Seq<VcdCommand>) -> bool {
    &&& r.len() == c.len()
    &&& forall|k: int| 0 <= k < r.len() ==> read_command_is(#[trigger] r[k], c[k])
}

/// Every command can be read back.
pub open spec fn read_commands_ok(r: Seq<VcdReadCommand>) -> bool {
    forall|k: int| 0 <= k < r.len() ==> read_command_ok(#[trigger] r[k])
}

/// Reads a command back into the library's types; none when it cannot be.
pub fn read_command(r: &VcdReadCommand) -> (c: Option<VcdCommand>)
    ensures
        c matches Some(c) ==> read_command_is(*r, c),
        c is None <==> !read_command_ok(*r),
{
    match r {
        VcdReadCommand::Timestamp(t) => Some(VcdCommand::Timestamp(*t)),
        VcdReadCommand::ChangeScalar(code, v) => {
            let id = vcd_id_code(code);
            let chars = string_to_chars(v);
            match id {
                Some(id) => {
                    if chars.len() != 1 {
                        return None;
                    }
                    match wire_value_of(chars[0]) {
                        Some(w) => {
                            assert(v@ =~= seq![w.spec_char()]);
                            Some(VcdCommand::ChangeScalar(id, w))
                        },
                        None => None,
                    }
                },
                None => None,
            }
        },
        VcdReadCommand::ChangeVector(code, v) => {
            let id = vcd_id_code(code);
            let bits = wire_values_of(v);
            match (id, bits) {
                (Some(id), Some(bits)) => Some(VcdCommand::ChangeVector(id, bits)),
                _ => None,
            }
        },
        VcdReadCommand::Other => Some(VcdCommand::Other),
    }
}

/// Reads commands back into the library's types; none when one cannot be.
pub fn read_commands(r: &Vec<VcdReadCommand>) -> (c: Option<Vec<VcdCommand>>)
    ensures
        c matches Some(c) ==> read_commands_are(r@, c@),
        c is None <==> !read_commands_ok(r@),
{
    let mut out: Vec<VcdCommand> = Vec::new();
    let mut i: usize = 0;
    while i < r.len()
        invariant
            i <= r.len(),
            out@.len() == i,
            forall|k: int| 0 <= k < i ==> read_command_is(#[trigger] r@[k], out@[k]),
            forall|k: int| 0 <= k < i ==> read_command_ok(#[trigger] r@[k]),
        decreases r.len() - i,
    {
        match read_command(&r[i]) {
            Some(c) => {
                out.push(c);
            },
            None => {
                return None;
            },
        }
        i = i + 1;
    }
    Some(out)
}

/// Reads the bytes of a VCD file into the library's types: the header and the
/// commands that follow it, read back from what the vcd crate read. None when
/// the crate refuses the bytes or they declare something the library does not
/// know.
pub fn read_vcd(data: &[u8]) -> (r: Option<(VcdHeader, Vec<VcdCommand>)>)
    ensures
        r is Some <==> (vcd_parsed(data@) matches Some((rh, rc)) && read_header_ok(rh)
            && read_commands_ok(rc)),
        r matches Some((h, c)) ==> (vcd_parsed(data@) matches Some((rh, rc)) && read_header_is(
            rh,
            h,
        ) && read_commands_are(rc, c@)),
{
    let (rh, rc) = match vcd_parse(data) {
        Some(p) => p,
        None => {
            return None;
        },
    };
    let ghost read = rh;
    let header = match read_header(rh) {
        Some(h) => h,
        None => {
            return None;
        },
    };
    match read_commands(&rc) {
        Some(commands) => {
            assert(read_header_is(read, header));
            Some((header, commands))
        },
        None => None,
    }
}

} // verus!
