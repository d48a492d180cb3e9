//! What the wave view computes besides drawing: cursors and time labels.
use crate::text::{decimal_chars, digits, push_all, signed_decimal_chars, signed_digits, string_from_chars};
use crate::radix::{le_value, Radix};
use crate::wave::{
    WaveDataItem, WaveDataValue, WaveInfo, WaveSignalInfo, WaveSignalType, WaveTimescaleUnit,
    WireValue,
};
use vstd::arithmetic::power::pow;
use vstd::prelude::*;

verus! {

broadcast use vstd::std_specs::hash::group_hash_axioms;

/// A cursor of the wave view: an id, a position, a name, and whether it has
/// been placed.
#[derive(Debug)]
pub struct WaveCursor {
    pub id: i32,
    /// Wave position
    pub pos: u64,
    pub name: String,
    pub valid: bool,
}

impl WaveCursor {
    /// A placed cursor named `Cursor<id>`.
    pub fn new(id: i32, pos: u64) -> (c: Self)
        ensures
            c.id == id,
            c.pos == pos,
            c.name@ == seq!['C', 'u', 'r', 's', 'o', 'r'] + signed_digits(id as int),
            c.valid,
    {
        let mut name: Vec<char> = vec!['C', 'u', 'r', 's', 'o', 'r'];
        let number = signed_decimal_chars(id);
        push_all(&mut name, &number);
        WaveCursor { id, pos, name: string_from_chars(&name), valid: true }
    }

    /// A cursor not yet placed, at position 0, with the given name.
    pub fn from_string(id: i32, name: &str) -> (c: Self)
        ensures
            c.id == id,
            c.pos == 0,
            c.name@ == name@,
            !c.valid,
    {
        WaveCursor { id, pos: 0, name: name.to_string(), valid: false }
    }

    /// Set position and set valid
    pub fn set_pos_valid(&mut self, pos: u64)
        ensures
            final(self).pos == pos,
            final(self).valid,
            final(self).id == old(self).id,
            final(self).name == old(self).name,
    {
        self.pos = pos;
        self.valid = true;
    }
}

/// Whether a cursor with id `id` is among `cursors`.
pub fn cursors_exists_id(cursors: &Vec<WaveCursor>, id: i32) -> (r: bool)
    ensures
        r <==> exists|k: int| 0 <= k < cursors@.len() && #[trigger] cursors@[k].id == id,
{
    let mut i: usize = 0;
    while i < cursors.len()
        invariant
            i <= cursors.len(),
            forall|k: int| 0 <= k < i ==> #[trigger] cursors@[k].id != id,
        decreases cursors.len() - i,
    {
        if cursors[i].id == id {
            return true;
        }
        i = i + 1;
    }
    false
}

/// The first cursor with id `id`, if any.
pub fn cursors_get(cursors: &Vec<WaveCursor>, id: i32) -> (r: Option<&WaveCursor>)
    ensures
        match r {
            Some(c) => exists|k: int|
                0 <= k < cursors@.len() && *c == cursors@[k] && cursors@[k].id == id && forall|j: int|
                    0 <= j < k ==> #[trigger] cursors@[j].id != id,
            None => forall|k: int| 0 <= k < cursors@.len() ==> #[trigger] cursors@[k].id != id,
        },
{
    let mut i: usize = 0;
    while i < cursors.len()
        invariant
            i <= cursors.len(),
            forall|k: int| 0 <= k < i ==> #[trigger] cursors@[k].id != id,
        decreases cursors.len() - i,
    {
        if cursors[i].id == id {
            return Some(&cursors[i]);
        }
        i = i + 1;
    }
    None
}

/// The largest id among `cursors`, none when there is no cursor.
pub open spec fn max_cursor_id(cursors: Seq<WaveCursor>) -> Option<i32>
    decreases cursors.len(),
{
    if cursors.len() == 0 {
        None
    } else {
        match max_cursor_id(cursors.drop_last()) {
            Some(m) => Some(if m < cursors.last().id { cursors.last().id } else { m }),
            None => Some(cursors.last().id),
        }
    }
}

/// Id for a new cursor: one more than the largest id in use, or 0.
pub fn next_cursor_id(cursors: &Vec<WaveCursor>) -> (r: i32)
    requires
        max_cursor_id(cursors@) matches Some(m) ==> m < i32::MAX,
    ensures
        r == match max_cursor_id(cursors@) {
            Some(m) => m + 1,
            None => 0,
        },
{
    let mut best: Option<i32> = None;
    let mut i: usize = 0;
    while i < cursors.len()
        invariant
            i <= cursors.len(),
            best == max_cursor_id(cursors@.take(i as int)),
        decreases cursors.len() - i,
    {
        assert(cursors@.take(i + 1).drop_last() =~= cursors@.take(i as int));
        let id = cursors[i].id;
        best = match best {
            Some(m) => Some(if m < id { id } else { m }),
            None => Some(id),
        };
        i = i + 1;
    }
    assert(cursors@.take(cursors.len() as int) =~= cursors@);
    match best {
        Some(m) => m + 1,
        None => 0,
    }
}

/// Every cursor id is at most the largest one.
pub proof fn lemma_max_cursor_id(cursors: Seq<WaveCursor>)
    ensures
        max_cursor_id(cursors) is None <==> cursors.len() == 0,
        max_cursor_id(cursors) matches Some(m) ==> (forall|k: int|
            0 <= k < cursors.len() ==> #[trigger] cursors[k].id <= m) && exists|k: int|
            0 <= k < cursors.len() && cursors[k].id == m,
    decreases cursors.len(),
{
    if cursors.len() > 0 {
        let rest = cursors.drop_last();
        lemma_max_cursor_id(rest);
        assert forall|k: int| 0 <= k < rest.len() implies rest[k] == cursors[k] by {}
        if rest.len() > 0 {
            let m = max_cursor_id(rest).unwrap();
            let k = choose|k: int| 0 <= k < rest.len() && rest[k].id == m;
            assert(cursors[k].id == m);
        }
    }
}

/// A new cursor id is not in use yet.
pub proof fn lemma_next_cursor_id_fresh(cursors: Seq<WaveCursor>)
    requires
        max_cursor_id(cursors) matches Some(m) ==> m < i32::MAX,
    ensures
        forall|k: int|
            0 <= k < cursors.len() ==> #[trigger] cursors[k].id != match max_cursor_id(cursors) {
                Some(m) => m + 1,
                None => 0,
            },
{
    lemma_max_cursor_id(cursors);
}

/// `<pos * scale><unit>`: a wave position as a time.
pub open spec fn spec_pos_to_time(timescale: (u64, WaveTimescaleUnit), pos: u64) -> Seq<char> {
    digits((pos * timescale.0) as nat, 10) + timescale.1.spec_name()
}

/// Stringify wave position
pub fn pos_to_time(timescale: &(u64, WaveTimescaleUnit), pos: u64) -> (s: String)
    requires
        pos * timescale.0 <= u64::MAX,
    ensures
        s@ == spec_pos_to_time(*timescale, pos),
{
    let v: u64 = pos * timescale.0;
    let mut out = decimal_chars(v);
    let unit = timescale.1.name_chars();
    push_all(&mut out, &unit);
    assert(out@ =~= spec_pos_to_time(*timescale, pos));
    string_from_chars(&out)
}

/// While the value is a nonzero multiple of a thousand and there is a larger
/// unit, divide the value by a thousand and take the next larger unit: the
/// same time, in the largest unit that shows it as a whole number.
pub open spec fn normalize_time(v: nat, u: WaveTimescaleUnit) -> (nat, WaveTimescaleUnit)
    decreases u.rank(),
{
    if v >= 1000 && v % 1000 == 0 && u.spec_larger() is Some {
        normalize_time(v / 1000, u.spec_larger().unwrap())
    } else {
        (v, u)
    }
}

/// A normalized time is the same time: its value, scaled by a thousand for
/// each unit it went up, gives back the value it started from.
pub proof fn lemma_normalize_same_time(v: nat, u: WaveTimescaleUnit)
    ensures
        normalize_time(v, u).1.rank() <= u.rank(),
        normalize_time(v, u).0 * pow(1000, (u.rank() - normalize_time(v, u).1.rank()) as nat) == v,
    decreases u.rank(),
{
    let (w, r) = normalize_time(v, u);
    if v >= 1000 && v % 1000 == 0 && u.spec_larger() is Some {
        let l = u.spec_larger().unwrap();
        assert(l.rank() + 1 == u.rank()) by {
            match u {
                WaveTimescaleUnit::S => {},
                WaveTimescaleUnit::MS => {},
                WaveTimescaleUnit::US => {},
                WaveTimescaleUnit::NS => {},
                WaveTimescaleUnit::PS => {},
                WaveTimescaleUnit::FS => {},
            }
        }
        lemma_normalize_same_time(v / 1000, l);
        let e = (l.rank() - r.rank()) as nat;
        assert((u.rank() - r.rank()) as nat == e + 1);
        assert(pow(1000, e + 1) == 1000 * pow(1000, e)) by {
            reveal(pow);
        }
        let p = pow(1000, e);
        assert(w * (1000 * p) == 1000 * (w * p)) by (nonlinear_arith);
        assert(1000 * (v / 1000) == v);
    } else {
        assert(pow(1000, 0) == 1) by {
            reveal(pow);
        }
    }
}

/// Stringify wave position, normalized: the same time in the largest unit
/// that shows it as a whole number.
pub fn pos_to_time_fmt(timescale: &(u64, WaveTimescaleUnit), pos: u64) -> (s: String)
    requires
        pos * timescale.0 <= u64::MAX,
    ensures
        s@ == digits(normalize_time((pos * timescale.0) as nat, timescale.1).0, 10)
            + normalize_time((pos * timescale.0) as nat, timescale.1).1.spec_name(),
{
    let mut v: u64 = pos * timescale.0;
    let mut u: WaveTimescaleUnit = timescale.1;
    loop
        invariant
            normalize_time(v as nat, u) == normalize_time((pos * timescale.0) as nat, timescale.1),
        ensures
            normalize_time((pos * timescale.0) as nat, timescale.1) == (v as nat, u),
        decreases u.rank(),
    {
        if v >= 1000 && v % 1000 == 0 {
            match u.larger() {
                Some(l) => {
                    v = v / 1000;
                    u = l;
                },
                None => {
                    break;
                },
            }
        } else {
            break;
        }
    }
    let mut out = decimal_chars(v);
    let unit = u.name_chars();
    push_all(&mut out, &unit);
    string_from_chars(&out)
}

/// How long a tick of the time bar is drawn.
#[derive(Clone, Copy, Debug, PartialEq, Eq, Structural)]
pub enum TickKind {
    /// Every tenth step: full height, labelled.
    Long,
    /// Every fifth step otherwise: half height, labelled.
    Half,
    /// Any other step: a quarter of the height, no label.
    Short,
}

/// The tick of the time bar at `time`, for ticks `step` apart.
pub open spec fn spec_tick_kind(time: u64, step: u64) -> TickKind {
    if (time as int) % (10 * step) == 0 {
        TickKind::Long
    } else if (time as int) % (5 * step) == 0 {
        TickKind::Half
    } else {
        TickKind::Short
    }
}

/// The tick of the time bar at `time`, for ticks `step` apart; the long and
/// half ticks carry a label.
pub fn tick_kind(time: u64, step: u64) -> (k: TickKind)
    requires
        0 < step,
        10 * step <= u64::MAX,
    ensures
        k == spec_tick_kind(time, step),
{
    if time % (10 * step) == 0 {
        TickKind::Long
    } else if time % (5 * step) == 0 {
        TickKind::Half
    } else {
        TickKind::Short
    }
}

/// The positions the time bar ticks at for a visible `range`: from the
/// multiple of `step` at or before its start to the first multiple after its
/// end (excluded).
pub fn tick_range(range: (u64, u64), step: u64) -> (r: (u64, u64))
    requires
        0 < step,
        (range.1 / step + 1) * step <= u64::MAX,
    ensures
        r == (((range.0 / step) * step) as u64, ((range.1 / step + 1) * step) as u64),
{
    let first = range.0 / step;
    assert(range.1 / step + 1 <= (range.1 / step + 1) * step) by (nonlinear_arith)
        requires
            step >= 1,
            range.1 / step >= 0,
    ;
    let last = range.1 / step + 1;
    assert(first * step <= range.0) by (nonlinear_arith)
        requires
            first == range.0 / step,
            step > 0,
    ;
    (first * step, last * step)
}

/// The first label edit of the signal at `i`, if any: an edit is the new
/// signal, the position it is for, and whether the signal is removed.
pub open spec fn first_edit<T>(edits: Seq<(T, usize, bool)>, i: int) -> Option<(T, usize, bool)>
    decreases edits.len(),
{
    if edits.len() == 0 {
        None
    } else if edits[0].1 == i {
        Some(edits[0])
    } else {
        first_edit(edits.drop_first(), i)
    }
}

/// The signal list after label edits: each signal is kept when no edit is
/// for its position, dropped when the first edit for it removes it, and
/// replaced by that edit's signal otherwise.
pub open spec fn edited_signals<T>(signals: Seq<T>, edits: Seq<(T, usize, bool)>) -> Seq<T>
    decreases signals.len(),
{
    if signals.len() == 0 {
        Seq::empty()
    } else {
        let rest = edited_signals(signals.drop_last(), edits);
        match first_edit(edits, signals.len() - 1) {
            None => rest.push(signals.last()),
            Some(e) => if e.2 {
                rest
            } else {
                rest.push(e.0)
            },
        }
    }
}

/// The first edit of the signal at `i`, if any.
fn find_edit<T: Copy>(edits: &Vec<(T, usize, bool)>, i: usize) -> (r: Option<(T, usize, bool)>)
    ensures
        r == first_edit(edits@, i as int),
{
    let mut k: usize = 0;
    assert(edits@.skip(0) =~= edits@);
    while k < edits.len()
        invariant
            k <= edits.len(),
            first_edit(edits@.skip(k as int), i as int) == first_edit(edits@, i as int),
        decreases edits.len() - k,
    {
        assert(edits@.skip(k as int)[0] == edits@[k as int]);
        assert(edits@.skip(k as int).drop_first() =~= edits@.skip(k + 1));
        if edits[k].1 == i {
            return Some(edits[k]);
        }
        k = k + 1;
    }
    None
}

/// Applies the label edits of the wave panel to the list of signals shown
/// (see [`edited_signals`]).
pub fn apply_signal_edits<T: Copy>(signals: &Vec<T>, edits: &Vec<(T, usize, bool)>) -> (r: Vec<T>)
    ensures
        r@ == edited_signals(signals@, edits@),
{
    let mut out: Vec<T> = Vec::new();
    let mut i: usize = 0;
    assert(signals@.take(0) =~= Seq::<T>::empty());
    while i < signals.len()
        invariant
            i <= signals.len(),
            out@ == edited_signals(signals@.take(i as int), edits@),
        decreases signals.len() - i,
    {
        assert(signals@.take(i + 1).drop_last() =~= signals@.take(i as int));
        assert(signals@.take(i + 1).last() == signals@[i as int]);
        match find_edit(edits, i) {
            None => {
                out.push(signals[i]);
            },
            Some(e) => {
                if !e.2 {
                    out.push(e.0);
                }
            },
        }
        i = i + 1;
    }
    assert(signals@.take(signals.len() as int) =~= signals@);
    out
}

/// Positions (in order) of the signals, given by their ids, that the wave
/// declares; the others are to be dropped from a view after a reload.
pub fn available_signals(ids: &Vec<u64>, info: &WaveInfo) -> (keep: Vec<usize>)
    ensures
        keep@.len() <= ids@.len(),
        forall|a: int, b: int| 0 <= a < b < keep@.len() ==> keep@[a] < keep@[b],
        forall|a: int| 0 <= a < keep@.len() ==> #[trigger] keep@[a] < ids@.len(),
        forall|k: int|
            0 <= k < ids@.len() ==> (info.code_signal_info@.dom().contains(#[trigger] ids@[k])
                <==> keep@.contains(k as usize)),
{
    let mut keep: Vec<usize> = Vec::new();
    let mut i: usize = 0;
    while i < ids.len()
        invariant
            i <= ids.len(),
            keep@.len() <= i,
            forall|a: int, b: int| 0 <= a < b < keep@.len() ==> keep@[a] < keep@[b],
            forall|a: int| 0 <= a < keep@.len() ==> #[trigger] keep@[a] < i,
            forall|k: int|
                0 <= k < i ==> (info.code_signal_info@.dom().contains(#[trigger] ids@[k])
                    <==> keep@.contains(k as usize)),
        decreases ids.len() - i,
    {
        let ghost before = keep@;
        if info.code_signal_info.contains_key(&ids[i]) {
            keep.push(i);
            assert(keep@[keep@.len() - 1] == i);
        }
        assert forall|k: int| 0 <= k < i + 1 implies (info.code_signal_info@.dom().contains(
            #[trigger] ids@[k],
        ) <==> keep@.contains(k as usize)) by {
            if k < i {
                if before.contains(k as usize) {
                    let a = choose|a: int| 0 <= a < before.len() && before[a] == k as usize;
                    assert(keep@[a] == k as usize);
                }
                if keep@.contains(k as usize) {
                    let a = choose|a: int| 0 <= a < keep@.len() && keep@[a] == k as usize;
                    if a < before.len() {
                        assert(before[a] == k as usize);
                    }
                }
            } else {
                if keep@.contains(k as usize) {
                    let a = choose|a: int| 0 <= a < keep@.len() && keep@[a] == k as usize;
                    if a < before.len() {
                        assert(before[a] < i);
                    }
                }
            }
        }
        i = i + 1;
    }
    keep
}

/// The signal information of `id` in the wave, or the default (empty) one
/// when the wave does not declare it.
pub fn signal_info_or_default(id: u64, info: &WaveInfo) -> (s: WaveSignalInfo)
    ensures
        info.code_signal_info@.dom().contains(id) ==> s == info.code_signal_info@[id],
        !info.code_signal_info@.dom().contains(id) ==> s.id == 0 && s.name@.len() == 0 && s.width
            == 0 && s.typ == WaveSignalType::Reg,
{
    match info.code_signal_info.get(&id) {
        Some(s) => s.clone(),
        None => WaveSignalInfo::default(),
    }
}

/// How a value change is drawn: a one-bit signal as a low or high line, a
/// wider one as a value box; unknown (`x`) and high-impedance (`z`) values and
/// a wide zero have shapes of their own.
#[derive(Clone, Copy, Debug, PartialEq, Eq, Structural)]
pub enum WaveShape {
    Low,
    High,
    Unknown,
    HighImpedance,
    ZeroValue,
    Value,
}

/// Whether a change of a signal `width` bits wide is drawn as one bit: a
/// stored number when the signal is one bit wide, raw bits when there is one.
pub open spec fn spec_is_single(value: WaveDataValue, width: u64) -> bool {
    match value {
        WaveDataValue::Comp(_) => width == 1,
        WaveDataValue::Raw(v) => v@.len() == 1,
    }
}

/// The shape of a change, given its signal's width and its text.
pub open spec fn spec_item_shape(value: WaveDataValue, width: u64, text: Seq<char>) -> WaveShape {
    if spec_is_single(value, width) {
        match value {
            WaveDataValue::Comp(b) => if le_value(b@) == 1 {
                WaveShape::High
            } else {
                WaveShape::Low
            },
            WaveDataValue::Raw(v) => match v@[0] {
                WireValue::V0 => WaveShape::Low,
                WireValue::V1 => WaveShape::High,
                WireValue::X => WaveShape::Unknown,
                WireValue::Z => WaveShape::HighImpedance,
            },
        }
    } else if text.contains('x') {
        WaveShape::Unknown
    } else if text.contains('z') {
        WaveShape::HighImpedance
    } else {
        match value {
            WaveDataValue::Comp(b) => if le_value(b@) == 0 {
                WaveShape::ZeroValue
            } else {
                WaveShape::Value
            },
            WaveDataValue::Raw(_) => WaveShape::Value,
        }
    }
}

proof fn lemma_le_value_zero(b: Seq<u8>)
    ensures
        le_value(b) == 0 <==> forall|i: int| 0 <= i < b.len() ==> b[i] == 0,
    decreases b.len(),
{
    if b.len() > 0 {
        lemma_le_value_zero(b.drop_first());
        if le_value(b) == 0 {
            assert forall|i: int| 0 <= i < b.len() implies b[i] == 0 by {
                if i > 0 {
                    assert(b[i] == b.drop_first()[i - 1]);
                }
            }
        }
        if forall|i: int| 0 <= i < b.len() ==> b[i] == 0 {
            assert forall|i: int| 0 <= i < b.drop_first().len() implies b.drop_first()[i] == 0 by {
                assert(b.drop_first()[i] == b[i + 1]);
            }
        }
    }
}

/// Whether `b[from..]` are all zero bytes.
fn zeros_from(b: &Vec<u8>, from: usize) -> (r: bool)
    requires
        from <= b@.len(),
    ensures
        r == forall|i: int| from <= i < b@.len() ==> b@[i] == 0,
{
    let mut i: usize = from;
    while i < b.len()
        invariant
            from <= i <= b@.len(),
            forall|k: int| from <= k < i ==> b@[k] == 0,
        decreases b.len() - i,
    {
        if b[i] != 0 {
            return false;
        }
        i = i + 1;
    }
    true
}

fn chars_contain(text: &String, c: char) -> (r: bool)
    ensures
        r == text@.contains(c),
{
    let chars = crate::text::string_to_chars(text);
    let mut i: usize = 0;
    while i < chars.len()
        invariant
            i <= chars@.len(),
            chars@ == text@,
            forall|k: int| 0 <= k < i ==> chars@[k] != c,
        decreases chars.len() - i,
    {
        if chars[i] == c {
            assert(chars@[i as int] == c);
            return true;
        }
        i = i + 1;
    }
    false
}

/// How a stored number is drawn: as a one-bit line (high for one, low
/// otherwise) exactly when its signal is one bit wide; for a wider signal it
/// is never a line but a box: `x` or `z` when its text shows one, else the
/// zero box for zero and the value box for any other number, however many
/// bytes hold it. Raw bits are a line exactly when there is one bit.
pub proof fn lemma_item_shape_lines(value: WaveDataValue, width: u64, text: Seq<char>)
    ensures
        value matches WaveDataValue::Comp(b) ==> {
            &&& width == 1 ==> spec_item_shape(value, width, text) == if le_value(b@) == 1 {
                WaveShape::High
            } else {
                WaveShape::Low
            }
            &&& width != 1 ==> spec_item_shape(value, width, text) != WaveShape::High
                && spec_item_shape(value, width, text) != WaveShape::Low
            &&& width != 1 && !text.contains('x') && !text.contains('z') ==> spec_item_shape(
                value,
                width,
                text,
            ) == if le_value(b@) == 0 {
                WaveShape::ZeroValue
            } else {
                WaveShape::Value
            }
        },
        value matches WaveDataValue::Raw(v) ==> {
            &&& v@.len() != 1 ==> spec_item_shape(value, width, text) != WaveShape::High
                && spec_item_shape(value, width, text) != WaveShape::Low
            &&& v@.len() != 1 && !text.contains('x') && !text.contains('z') ==> spec_item_shape(
                value,
                width,
                text,
            ) == WaveShape::Value
            &&& v@.len() == 1 ==> spec_item_shape(value, width, text) == match v@[0] {
                WireValue::V0 => WaveShape::Low,
                WireValue::V1 => WaveShape::High,
                WireValue::X => WaveShape::Unknown,
                WireValue::Z => WaveShape::HighImpedance,
            }
        },
        !spec_is_single(value, width) ==> (text.contains('x') ==> spec_item_shape(value, width, text)
            == WaveShape::Unknown),
{
}

/// The shape a change is drawn with; `width` is its signal's width and `text`
/// its value as shown.
pub fn item_shape(value: &WaveDataValue, width: u64, text: &String) -> (s: WaveShape)
    ensures
        s == spec_item_shape(*value, width, text@),
{
    let single = match value {
        WaveDataValue::Comp(_) => width == 1,
        WaveDataValue::Raw(v) => v.len() == 1,
    };
    if single {
        match value {
            WaveDataValue::Comp(b) => {
                proof {
                    lemma_le_value_zero(b@);
                    lemma_le_value_zero(b@.drop_first());
                }
                if b.len() > 0 && b[0] == 1 && zeros_from(b, 1) {
                    assert forall|i: int| 0 <= i < b@.drop_first().len() implies b@.drop_first()[i]
                        == 0 by {
                        assert(b@.drop_first()[i] == b@[i + 1]);
                    }
                    WaveShape::High
                } else {
                    proof {
                        if b@.len() > 0 && b@[0] != 1 {
                            assert(le_value(b@) == b@[0] as nat + 256 * le_value(b@.drop_first()));
                            if le_value(b@.drop_first()) > 0 {
                                assert(le_value(b@) >= 256);
                            }
                        }
                        if b@.len() > 0 && b@[0] == 1 && !(forall|i: int|
                            1 <= i < b@.len() ==> b@[i] == 0) {
                            let i = choose|i: int| 1 <= i < b@.len() && b@[i] != 0;
                            assert(b@.drop_first()[i - 1] != 0);
                            assert(le_value(b@.drop_first()) > 0);
                        }
                    }
                    WaveShape::Low
                }
            },
            WaveDataValue::Raw(v) => match v[0] {
                WireValue::V0 => WaveShape::Low,
                WireValue::V1 => WaveShape::High,
                WireValue::X => WaveShape::Unknown,
                WireValue::Z => WaveShape::HighImpedance,
            },
        }
    } else if chars_contain(text, 'x') {
        WaveShape::Unknown
    } else if chars_contain(text, 'z') {
        WaveShape::HighImpedance
    } else {
        match value {
            WaveDataValue::Comp(b) => {
                proof {
                    lemma_le_value_zero(b@);
                }
                if zeros_from(b, 0) {
                    WaveShape::ZeroValue
                } else {
                    WaveShape::Value
                }
            },
            WaveDataValue::Raw(_) => WaveShape::Value,
        }
    }
}

/// The label of a value box too narrow for it: `remove` characters do not fit,
/// so the text is cut to what fits, its last character making room for a `+`;
/// a single `+` when at most one character would be left.
pub open spec fn spec_truncated_label(text: Seq<char>, remove: nat) -> Seq<char> {
    let remains = text.take(text.len() - remove);
    if remains.len() <= 1 {
        seq!['+']
    } else {
        remains.take(remains.len() - 2) + seq!['+']
    }
}

/// Cuts the label of a value box that is too narrow for it.
pub fn truncated_label(text: &String, remove: usize) -> (s: String)
    requires
        remove <= text@.len(),
    ensures
        s@ == spec_truncated_label(text@, remove as nat),
{
    let chars = crate::text::string_to_chars(text);
    let keep: usize = chars.len() - remove;
    let mut out: Vec<char> = Vec::new();
    if keep > 1 {
        let mut i: usize = 0;
        while i < keep - 2
            invariant
                keep <= chars@.len(),
                keep > 1,
                i <= keep - 2,
                chars@ == text@,
                out@ == chars@.take(i as int),
            decreases keep - 2 - i,
        {
            out.push(chars[i]);
            assert(out@ =~= chars@.take(i + 1));
            i = i + 1;
        }
    }
    out.push('+');
    assert(out@ =~= spec_truncated_label(text@, remove as nat));
    string_from_chars(&out)
}

/// Number of changes in `list` before time `start`, for a list in order of time.
pub fn changes_before(list: &Vec<WaveDataItem>, start: u64) -> (n: usize)
    requires
        crate::wave::sorted_by_time(list@),
    ensures
        n <= list@.len(),
        forall|k: int| 0 <= k < n ==> #[trigger] list@[k].timestamp < start,
        forall|k: int| n <= k < list@.len() ==> #[trigger] list@[k].timestamp >= start,
{
    let mut lo: usize = 0;
    let mut hi: usize = list.len();
    while lo < hi
        invariant
            crate::wave::sorted_by_time(list@),
            lo <= hi <= list@.len(),
            forall|k: int| 0 <= k < lo ==> #[trigger] list@[k].timestamp < start,
            forall|k: int| hi <= k < list@.len() ==> #[trigger] list@[k].timestamp >= start,
        decreases hi - lo,
    {
        let mid = lo + (hi - lo) / 2;
        if list[mid].timestamp < start {
            assert forall|k: int| 0 <= k < mid + 1 implies #[trigger] list@[k].timestamp < start by {
                assert(list@[k].timestamp <= list@[mid as int].timestamp);
            }
            lo = mid + 1;
        } else {
            assert forall|k: int| mid <= k < list@.len() implies #[trigger] list@[k].timestamp
                >= start by {
                assert(list@[mid as int].timestamp <= list@[k].timestamp);
            }
            hi = mid;
        }
    }
    lo
}

/// Index of the first change to draw when the view starts at `start`: the
/// last change before it, or the first change when none comes before.
pub fn first_drawn(list: &Vec<WaveDataItem>, start: u64) -> (i: usize)
    requires
        crate::wave::sorted_by_time(list@),
    ensures
        (list@.len() == 0 || list@[0].timestamp >= start) ==> i == 0,
        list@.len() > 0 && list@[0].timestamp < start ==> {
            &&& i < list@.len()
            &&& list@[i as int].timestamp < start
            &&& (i + 1 == list@.len() || list@[i + 1].timestamp >= start)
        },
{
    let n = changes_before(list, start);
    if n > 0 {
        n - 1
    } else {
        0
    }
}

/// How a signal's values are shown: in the view's radix, in a given radix,
/// or as an analog curve.
#[derive(Clone, Copy, Debug, PartialEq, Eq, Structural)]
pub enum SignalViewMode {
    Default,
    Number(Radix),
    Analog,
}

impl Default for SignalViewMode {
    fn default() -> (m: Self)
        ensures
            m == SignalViewMode::Default,
    {
        SignalViewMode::Default
    }
}

impl SignalViewMode {
    pub open spec fn spec_name(self) -> Seq<char> {
        match self {
            SignalViewMode::Default => seq!['d', 'e', 'f', 'a', 'u', 'l', 't'],
            SignalViewMode::Number(r) => r.spec_name(),
            SignalViewMode::Analog => seq!['A', 'n', 'a', 'l', 'o', 'g'],
        }
    }

    /// The name of the mode, as it is printed.
    pub fn to_string(&self) -> (s: String)
        ensures
            s@ == self.spec_name(),
    {
        match self {
            SignalViewMode::Default => {
                let c = vec!['d', 'e', 'f', 'a', 'u', 'l', 't'];
                string_from_chars(&c)
            },
            SignalViewMode::Number(r) => r.to_string(),
            SignalViewMode::Analog => {
                let c = vec!['A', 'n', 'a', 'l', 'o', 'g'];
                string_from_chars(&c)
            },
        }
    }
}

/// Where a value's text sits in its box.
#[derive(Clone, Copy, Debug, PartialEq, Eq, Structural)]
pub enum SignalViewAlign {
    Left,
    Center,
    Right,
}

impl Default for SignalViewAlign {
    fn default() -> (a: Self)
        ensures
            a == SignalViewAlign::Left,
    {
        SignalViewAlign::Left
    }
}

/// The radix a signal is shown in: the view's default for the default mode,
/// its own for a number mode, hexadecimal for an analog curve.
pub fn get_radix(mode: SignalViewMode, default_radix: Radix) -> (r: Radix)
    ensures
        r == match mode {
            SignalViewMode::Default => default_radix,
            SignalViewMode::Number(n) => n,
            SignalViewMode::Analog => Radix::Hex,
        },
{
    match mode {
        SignalViewMode::Default => default_radix,
        SignalViewMode::Number(n) => n,
        SignalViewMode::Analog => Radix::Hex,
    }
}

} // verus!
