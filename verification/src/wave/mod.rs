//! Wave data: four-state values, value changes, signal and scope information.
use crate::radix::{
    bits_value, is_minimal_le, le_bytes_to_str_radix, le_value, radix_accepts,
    radix_value_big_uint, radix_vector_to_string, spec_radix_vector_to_string, Radix,
    biguint_minimal_le,
};
use crate::text::{decimal_chars, digits, push_all, push_str_chars, string_from_chars};
use std::collections::HashMap;
use trees::Tree;
use vstd::prelude::*;

pub mod scope_tree;
pub mod vcd_load;
pub mod vcd_parser;
pub mod vcd_read;

verus! {

broadcast use vstd::std_specs::hash::group_hash_axioms;

/// Four-state logic value of one wire bit, as in a VCD value change.
#[derive(Clone, Copy, Debug, PartialEq, Eq, Structural, PartialOrd, Ord, Hash)]
pub enum WireValue {
    V0,
    V1,
    X,
    Z,
}

impl WireValue {
    /// The character that stands for this value in a numeral: `0`, `1`, `x` or `z`.
    pub open spec fn spec_char(self) -> char {
        match self {
            WireValue::V0 => '0',
            WireValue::V1 => '1',
            WireValue::X => 'x',
            WireValue::Z => 'z',
        }
    }

    pub fn to_char(&self) -> (c: char)
        ensures
            c == self.spec_char(),
    {
        match self {
            WireValue::V0 => '0',
            WireValue::V1 => '1',
            WireValue::X => 'x',
            WireValue::Z => 'z',
        }
    }

    /// The value as text: `0`, `1`, `x` or `z`.
    pub fn to_string(&self) -> (s: String)
        ensures
            s@ == seq![self.spec_char()],
    {
        let chars = vec![self.to_char()];
        string_from_chars(&chars)
    }
}

impl Default for WireValue {
    fn default() -> (v: Self)
        ensures
            v == WireValue::V0,
    {
        WireValue::V0
    }
}

/// Unit of the time scale of a wave.
#[derive(Clone, Copy, Debug, PartialEq, Eq, Structural)]
pub enum WaveTimescaleUnit {
    S,
    MS,
    US,
    NS,
    PS,
    FS,
}

impl Default for WaveTimescaleUnit {
    fn default() -> (u: Self)
        ensures
            u == WaveTimescaleUnit::PS,
    {
        WaveTimescaleUnit::PS
    }
}

impl WaveTimescaleUnit {
    /// The next unit a thousand times smaller; none below femtoseconds.
    pub open spec fn spec_smaller(self) -> Option<Self> {
        match self {
            WaveTimescaleUnit::S => Some(WaveTimescaleUnit::MS),
            WaveTimescaleUnit::MS => Some(WaveTimescaleUnit::US),
            WaveTimescaleUnit::US => Some(WaveTimescaleUnit::NS),
            WaveTimescaleUnit::NS => Some(WaveTimescaleUnit::PS),
            WaveTimescaleUnit::PS => Some(WaveTimescaleUnit::FS),
            WaveTimescaleUnit::FS => None,
        }
    }

    /// The next unit a thousand times larger; none above seconds.
    pub open spec fn spec_larger(self) -> Option<Self> {
        match self {
            WaveTimescaleUnit::S => None,
            WaveTimescaleUnit::MS => Some(WaveTimescaleUnit::S),
            WaveTimescaleUnit::US => Some(WaveTimescaleUnit::MS),
            WaveTimescaleUnit::NS => Some(WaveTimescaleUnit::US),
            WaveTimescaleUnit::PS => Some(WaveTimescaleUnit::NS),
            WaveTimescaleUnit::FS => Some(WaveTimescaleUnit::PS),
        }
    }

    /// Position of the unit from the largest (seconds, 0) to the smallest
    /// (femtoseconds, 5).
    pub open spec fn rank(self) -> nat {
        match self {
            WaveTimescaleUnit::S => 0,
            WaveTimescaleUnit::MS => 1,
            WaveTimescaleUnit::US => 2,
            WaveTimescaleUnit::NS => 3,
            WaveTimescaleUnit::PS => 4,
            WaveTimescaleUnit::FS => 5,
        }
    }

    /// The lowercase name of the unit: `s`, `ms`, `us`, `ns`, `ps`, `fs`.
    pub open spec fn spec_name(self) -> Seq<char> {
        match self {
            WaveTimescaleUnit::S => seq!['s'],
            WaveTimescaleUnit::MS => seq!['m', 's'],
            WaveTimescaleUnit::US => seq!['u', 's'],
            WaveTimescaleUnit::NS => seq!['n', 's'],
            WaveTimescaleUnit::PS => seq!['p', 's'],
            WaveTimescaleUnit::FS => seq!['f', 's'],
        }
    }

    pub fn smaller(&self) -> (r: Option<Self>)
        ensures
            r == self.spec_smaller(),
    {
        match self {
            WaveTimescaleUnit::S => Some(WaveTimescaleUnit::MS),
            WaveTimescaleUnit::MS => Some(WaveTimescaleUnit::US),
            WaveTimescaleUnit::US => Some(WaveTimescaleUnit::NS),
            WaveTimescaleUnit::NS => Some(WaveTimescaleUnit::PS),
            WaveTimescaleUnit::PS => Some(WaveTimescaleUnit::FS),
            WaveTimescaleUnit::FS => None,
        }
    }

    pub fn larger(&self) -> (r: Option<Self>)
        ensures
            r == self.spec_larger(),
    {
        match self {
            WaveTimescaleUnit::S => None,
            WaveTimescaleUnit::MS => Some(WaveTimescaleUnit::S),
            WaveTimescaleUnit::US => Some(WaveTimescaleUnit::MS),
            WaveTimescaleUnit::NS => Some(WaveTimescaleUnit::US),
            WaveTimescaleUnit::PS => Some(WaveTimescaleUnit::NS),
            WaveTimescaleUnit::FS => Some(WaveTimescaleUnit::PS),
        }
    }

    pub fn name_chars(&self) -> (c: Vec<char>)
        ensures
            c@ == self.spec_name(),
    {
        match self {
            WaveTimescaleUnit::S => vec!['s'],
            WaveTimescaleUnit::MS => vec!['m', 's'],
            WaveTimescaleUnit::US => vec!['u', 's'],
            WaveTimescaleUnit::NS => vec!['n', 's'],
            WaveTimescaleUnit::PS => vec!['p', 's'],
            WaveTimescaleUnit::FS => vec!['f', 's'],
        }
    }

    /// The lowercase name of the unit, as it is printed.
    pub fn to_string(&self) -> (s: String)
        ensures
            s@ == self.spec_name(),
    {
        let c = self.name_chars();
        string_from_chars(&c)
    }
}

/// Going one unit smaller and then one unit larger (or the other way round)
/// comes back to the unit one started from.
pub proof fn lemma_timescale_smaller_larger(u: WaveTimescaleUnit)
    ensures
        u.spec_smaller() matches Some(v) ==> v.spec_larger() == Some(u),
        u.spec_larger() matches Some(v) ==> v.spec_smaller() == Some(u),
{
}

/// `smaller` moves exactly one step down the scale, `larger` one step up; only
/// femtoseconds have nothing smaller and only seconds nothing larger.
pub proof fn lemma_timescale_steps(u: WaveTimescaleUnit)
    ensures
        u.spec_smaller() matches Some(v) ==> v.rank() == u.rank() + 1,
        u.spec_larger() matches Some(v) ==> v.rank() + 1 == u.rank(),
        u.spec_smaller() is None <==> u == WaveTimescaleUnit::FS,
        u.spec_larger() is None <==> u == WaveTimescaleUnit::S,
{
}

/// A value of a signal at one time: either the bits as read (`Raw`, least
/// significant first), or, when no bit is `x` or `z`, the number they stand for
/// as little-endian bytes (`Comp`).
#[derive(Debug)]
pub enum WaveDataValue {
    /// when vec empty, invalid
    Comp(Vec<u8>),
    Raw(Vec<WireValue>),
}

/// Two values are the same: same kind, same contents.
pub open spec fn same_value(a: WaveDataValue, b: WaveDataValue) -> bool {
    match (a, b) {
        (WaveDataValue::Comp(x), WaveDataValue::Comp(y)) => x@ == y@,
        (WaveDataValue::Raw(x), WaveDataValue::Raw(y)) => x@ == y@,
        _ => false,
    }
}

impl Clone for WaveDataValue {
    fn clone(&self) -> (r: Self)
        ensures
            same_value(r, *self),
    {
        match self {
            WaveDataValue::Comp(v) => {
                let c = v.clone();
                assert(c@ =~= v@);
                WaveDataValue::Comp(c)
            },
            WaveDataValue::Raw(v) => {
                let c = v.clone();
                assert(c@ =~= v@);
                WaveDataValue::Raw(c)
            },
        }
    }
}

impl Default for WaveDataValue {
    fn default() -> (v: Self)
        ensures
            v matches WaveDataValue::Raw(r) && r@.len() == 0,
    {
        WaveDataValue::Raw(Vec::new())
    }
}

impl WaveDataValue {
    /// Number of stored elements (bytes or bits); zero marks an invalid value.
    pub open spec fn spec_len(self) -> nat {
        match self {
            WaveDataValue::Comp(v) => v@.len(),
            WaveDataValue::Raw(v) => v@.len(),
        }
    }

    /// Whether the value can be shown in `radix` (an empty bit vector has no
    /// power-of-two numeral).
    pub open spec fn accepts_radix(self, radix: Radix) -> bool {
        match self {
            WaveDataValue::Comp(_) => true,
            WaveDataValue::Raw(v) => radix_accepts(radix, v@),
        }
    }

    /// The text of the value in `radix`: the plain numeral of a stored number, or
    /// the numeral of raw bits with their `x` and `z` digits.
    pub open spec fn spec_as_radix(self, radix: Radix) -> Seq<char> {
        match self {
            WaveDataValue::Comp(v) => digits(le_value(v@), radix.spec_number()),
            WaveDataValue::Raw(v) => spec_radix_vector_to_string(radix, v@),
        }
    }

    /// Whether the value can be shown in `radix`.
    pub fn shows_in(&self, radix: Radix) -> (r: bool)
        ensures
            r == self.accepts_radix(radix),
    {
        match self {
            WaveDataValue::Comp(_) => true,
            WaveDataValue::Raw(v) => match radix {
                Radix::Dec => true,
                _ => 0 < v.len() && v.len() <= usize::MAX - 8,
            },
        }
    }

    /// to string in radix
    pub fn as_radix(&self, radix: Radix) -> (s: String)
        requires
            self.accepts_radix(radix),
        ensures
            s@ == self.spec_as_radix(radix),
    {
        match self {
            WaveDataValue::Comp(v) => le_bytes_to_str_radix(v.as_slice(), radix),
            WaveDataValue::Raw(v) => radix_vector_to_string(radix, v),
        }
    }

    /// The value as it is displayed: in hexadecimal.
    pub fn to_string(&self) -> (s: String)
        requires
            self.accepts_radix(Radix::Hex),
        ensures
            s@ == self.spec_as_radix(Radix::Hex),
    {
        self.as_radix(Radix::Hex)
    }
}

/// Why a wave could not be built.
#[derive(Debug, Clone, Copy, PartialEq, Eq, Structural)]
pub enum WaveError {
    /// A value change without any bit.
    CompressInvalidData,
    /// The vcd crate could not read the file.
    VcdParse,
    /// The file declares a kind, unit, value or id code the library does not know.
    VcdUnknown,
    /// A progress report would be weighed past the largest timestamp.
    TimestampOverflow,
}

impl WaveError {
    pub open spec fn spec_message(self) -> Seq<char> {
        match self {
            WaveError::CompressInvalidData => seq![
                'c', 'o', 'm', 'p', 'r', 'e', 's', 's', 'i', 'n', 'g', ' ', 'i', 'n', 'v', 'a', 'l',
                'i', 'd', ' ', 'd', 'a', 't', 'a', '!',
            ],
            WaveError::VcdParse => seq![
                'i', 'n', 'v', 'a', 'l', 'i', 'd', ' ', 'v', 'c', 'd', ' ', 'f', 'i', 'l', 'e', '!',
            ],
            WaveError::VcdUnknown => seq![
                'u', 'n', 'k', 'n', 'o', 'w', 'n', ' ', 'v', 'c', 'd', ' ', 'i', 't', 'e', 'm', '!',
            ],
            WaveError::TimestampOverflow => seq![
                't', 'i', 'm', 'e', 's', 't', 'a', 'm', 'p', ' ', 'o', 'v', 'e', 'r', 'f', 'l', 'o',
                'w', '!',
            ],
        }
    }

    /// The message of the error.
    pub fn to_string(&self) -> (s: String)
        ensures
            s@ == self.spec_message(),
    {
        let chars = match self {
            WaveError::CompressInvalidData => vec![
                'c', 'o', 'm', 'p', 'r', 'e', 's', 's', 'i', 'n', 'g', ' ', 'i', 'n', 'v', 'a', 'l',
                'i', 'd', ' ', 'd', 'a', 't', 'a', '!',
            ],
            WaveError::VcdParse => vec![
                'i', 'n', 'v', 'a', 'l', 'i', 'd', ' ', 'v', 'c', 'd', ' ', 'f', 'i', 'l', 'e', '!',
            ],
            WaveError::VcdUnknown => vec![
                'u', 'n', 'k', 'n', 'o', 'w', 'n', ' ', 'v', 'c', 'd', ' ', 'i', 't', 'e', 'm', '!',
            ],
            WaveError::TimestampOverflow => vec![
                't', 'i', 'm', 'e', 's', 't', 'a', 'm', 'p', ' ', 'o', 'v', 'e', 'r', 'f', 'l', 'o',
                'w', '!',
            ],
        };
        string_from_chars(&chars)
    }
}

/// item struct in data list
#[derive(Debug)]
pub struct WaveDataItem {
    pub value: WaveDataValue,
    pub timestamp: u64,
}

/// Two items are the same: same time, same value.
pub open spec fn same_item(a: WaveDataItem, b: WaveDataItem) -> bool {
    a.timestamp == b.timestamp && same_value(a.value, b.value)
}

impl Clone for WaveDataItem {
    fn clone(&self) -> (r: Self)
        ensures
            same_item(r, *self),
    {
        WaveDataItem { value: self.value.clone(), timestamp: self.timestamp }
    }
}

impl Default for WaveDataItem {
    fn default() -> (item: Self)
        ensures
            item.timestamp == 0,
            item.value matches WaveDataValue::Raw(r) && r@.len() == 0,
    {
        WaveDataItem { value: WaveDataValue::default(), timestamp: 0 }
    }
}

/// Whether no bit is `x` or `z`, so that the bits are a plain number.
pub open spec fn is_two_state(s: Seq<WireValue>) -> bool {
    !s.contains(WireValue::X) && !s.contains(WireValue::Z)
}

/// What compressing an item gives: raw two-state bits become the shortest
/// little-endian bytes of their number; anything else stays as it is.
pub open spec fn compressed(item: WaveDataItem, out: WaveDataItem) -> bool {
    match item.value {
        WaveDataValue::Raw(v) => if is_two_state(v@) {
            out.timestamp == item.timestamp && (out.value matches WaveDataValue::Comp(b) && le_value(
                b@,
            ) == bits_value(v@) && is_minimal_le(b@))
        } else {
            out == item
        },
        WaveDataValue::Comp(_) => out == item,
    }
}

/// Compressing what compressing gave changes nothing more.
pub proof fn lemma_compress_twice(item: WaveDataItem, out: WaveDataItem)
    requires
        compressed(item, out),
    ensures
        compressed(out, out),
{
}

impl WaveDataItem {
    /// Compress [WaveDataItem], may change `Raw(_)` to `Comp(_)`
    pub fn compress(self) -> (r: Result<Self, WaveError>)
        ensures
            self.value.spec_len() == 0 <==> r is Err,
            r matches Err(e) ==> e == WaveError::CompressInvalidData,
            r matches Ok(out) ==> compressed(self, out),
    {
        let len = match &self.value {
            WaveDataValue::Comp(v) => v.len(),
            WaveDataValue::Raw(v) => v.len(),
        };
        if len == 0 {
            return Err(WaveError::CompressInvalidData);
        }
        match &self.value {
            WaveDataValue::Comp(_) => Ok(self),
            WaveDataValue::Raw(v) => {
                let mut two_state = true;
                let mut i: usize = 0;
                while i < v.len()
                    invariant
                        i <= v.len(),
                        two_state <==> forall|j: int|
                            0 <= j < i ==> v@[j] != WireValue::X && v@[j] != WireValue::Z,
                    decreases v.len() - i,
                {
                    if v[i] == WireValue::X || v[i] == WireValue::Z {
                        two_state = false;
                    }
                    i = i + 1;
                }
                assert(two_state == is_two_state(v@)) by {
                    if !two_state {
                        let j = choose|j: int|
                            0 <= j < v.len() && (v@[j] == WireValue::X || v@[j] == WireValue::Z);
                        assert(v@.contains(v@[j]));
                    }
                }
                if two_state {
                    let packed = radix_value_big_uint(v.as_slice());
                    let bytes = biguint_minimal_le(packed.as_slice());
                    Ok(WaveDataItem { value: WaveDataValue::Comp(bytes), timestamp: self.timestamp })
                } else {
                    Ok(self)
                }
            },
        }
    }

    pub open spec fn spec_to_string(self) -> Seq<char> {
        seq!['#'] + digits(self.timestamp as nat, 10) + seq![' '] + self.value.spec_as_radix(
            Radix::Hex,
        )
    }

    /// `#<time> <value in hex>`, the way an item is displayed.
    pub fn to_string(&self) -> (s: String)
        requires
            self.value.accepts_radix(Radix::Hex),
        ensures
            s@ == self.spec_to_string(),
    {
        let mut out: Vec<char> = vec!['#'];
        let t = decimal_chars(self.timestamp);
        push_all(&mut out, &t);
        out.push(' ');
        let v = self.value.to_string();
        push_str_chars(&mut out, &v);
        assert(out@ =~= self.spec_to_string());
        string_from_chars(&out)
    }
}

/// Kind of a signal, as declared in a VCD `$var`.
#[derive(Clone, Copy, Debug, PartialEq, Eq, Structural)]
pub enum WaveSignalType {
    Event,
    Integer,
    Parameter,
    Real,
    Reg,
    Supply0,
    Supply1,
    Time,
    Tri,
    TriAnd,
    TriOr,
    TriReg,
    Tri0,
    Tri1,
    WAnd,
    Wire,
    WOr,
    String,
}

impl Default for WaveSignalType {
    fn default() -> (t: Self)
        ensures
            t == WaveSignalType::Reg,
    {
        WaveSignalType::Reg
    }
}

impl WaveSignalType {
    /// The lowercase name of the kind.
    pub open spec fn spec_name(self) -> Seq<char> {
        match self {
            WaveSignalType::Event => seq!['e', 'v', 'e', 'n', 't'],
            WaveSignalType::Integer => seq!['i', 'n', 't', 'e', 'g', 'e', 'r'],
            WaveSignalType::Parameter => seq!['p', 'a', 'r', 'a', 'm', 'e', 't', 'e', 'r'],
            WaveSignalType::Real => seq!['r', 'e', 'a', 'l'],
            WaveSignalType::Reg => seq!['r', 'e', 'g'],
            WaveSignalType::Supply0 => seq!['s', 'u', 'p', 'p', 'l', 'y', '0'],
            WaveSignalType::Supply1 => seq!['s', 'u', 'p', 'p', 'l', 'y', '1'],
            WaveSignalType::Time => seq!['t', 'i', 'm', 'e'],
            WaveSignalType::Tri => seq!['t', 'r', 'i'],
            WaveSignalType::TriAnd => seq!['t', 'r', 'i', 'a', 'n', 'd'],
            WaveSignalType::TriOr => seq!['t', 'r', 'i', 'o', 'r'],
            WaveSignalType::TriReg => seq!['t', 'r', 'i', 'r', 'e', 'g'],
            WaveSignalType::Tri0 => seq!['t', 'r', 'i', '0'],
            WaveSignalType::Tri1 => seq!['t', 'r', 'i', '1'],
            WaveSignalType::WAnd => seq!['w', 'a', 'n', 'd'],
            WaveSignalType::Wire => seq!['w', 'i', 'r', 'e'],
            WaveSignalType::WOr => seq!['w', 'o', 'r'],
            WaveSignalType::String => seq!['s', 't', 'r', 'i', 'n', 'g'],
        }
    }

    pub fn to_string(&self) -> (s: String)
        ensures
            s@ == self.spec_name(),
    {
        let chars = match self {
            WaveSignalType::Event => vec!['e', 'v', 'e', 'n', 't'],
            WaveSignalType::Integer => vec!['i', 'n', 't', 'e', 'g', 'e', 'r'],
            WaveSignalType::Parameter => vec!['p', 'a', 'r', 'a', 'm', 'e', 't', 'e', 'r'],
            WaveSignalType::Real => vec!['r', 'e', 'a', 'l'],
            WaveSignalType::Reg => vec!['r', 'e', 'g'],
            WaveSignalType::Supply0 => vec!['s', 'u', 'p', 'p', 'l', 'y', '0'],
            WaveSignalType::Supply1 => vec!['s', 'u', 'p', 'p', 'l', 'y', '1'],
            WaveSignalType::Time => vec!['t', 'i', 'm', 'e'],
            WaveSignalType::Tri => vec!['t', 'r', 'i'],
            WaveSignalType::TriAnd => vec!['t', 'r', 'i', 'a', 'n', 'd'],
            WaveSignalType::TriOr => vec!['t', 'r', 'i', 'o', 'r'],
            WaveSignalType::TriReg => vec!['t', 'r', 'i', 'r', 'e', 'g'],
            WaveSignalType::Tri0 => vec!['t', 'r', 'i', '0'],
            WaveSignalType::Tri1 => vec!['t', 'r', 'i', '1'],
            WaveSignalType::WAnd => vec!['w', 'a', 'n', 'd'],
            WaveSignalType::Wire => vec!['w', 'i', 'r', 'e'],
            WaveSignalType::WOr => vec!['w', 'o', 'r'],
            WaveSignalType::String => vec!['s', 't', 'r', 'i', 'n', 'g'],
        };
        string_from_chars(&chars)
    }
}

/// Kind of a scope, as declared in a VCD `$scope`.
#[derive(Clone, Copy, Debug, PartialEq, Eq, Structural)]
pub enum WaveScopeType {
    Module,
    Task,
    Function,
    Begin,
    Fork,
}

impl Default for WaveScopeType {
    fn default() -> (t: Self)
        ensures
            t == WaveScopeType::Module,
    {
        WaveScopeType::Module
    }
}

impl WaveScopeType {
    /// The lowercase name of the kind.
    pub open spec fn spec_name(self) -> Seq<char> {
        match self {
            WaveScopeType::Module => seq!['m', 'o', 'd', 'u', 'l', 'e'],
            WaveScopeType::Task => seq!['t', 'a', 's', 'k'],
            WaveScopeType::Function => seq!['f', 'u', 'n', 'c', 't', 'i', 'o', 'n'],
            WaveScopeType::Begin => seq!['b', 'e', 'g', 'i', 'n'],
            WaveScopeType::Fork => seq!['f', 'o', 'r', 'k'],
        }
    }

    pub fn to_string(&self) -> (s: String)
        ensures
            s@ == self.spec_name(),
    {
        let chars = match self {
            WaveScopeType::Module => vec!['m', 'o', 'd', 'u', 'l', 'e'],
            WaveScopeType::Task => vec!['t', 'a', 's', 'k'],
            WaveScopeType::Function => vec!['f', 'u', 'n', 'c', 't', 'i', 'o', 'n'],
            WaveScopeType::Begin => vec!['b', 'e', 'g', 'i', 'n'],
            WaveScopeType::Fork => vec!['f', 'o', 'r', 'k'],
        };
        string_from_chars(&chars)
    }
}

/// A scope of the signal tree.
#[derive(Debug)]
pub struct WaveScopeInfo {
    pub id: u64,
    pub name: String,
    pub typ: WaveScopeType,
}

impl Clone for WaveScopeInfo {
    fn clone(&self) -> (r: Self)
        ensures
            r == *self,
    {
        WaveScopeInfo { id: self.id, name: self.name.clone(), typ: self.typ }
    }
}

impl Default for WaveScopeInfo {
    fn default() -> (r: Self)
        ensures
            r.id == 0,
            r.name@ == Seq::<char>::empty(),
            r.typ == WaveScopeType::Module,
    {
        WaveScopeInfo { id: 0, name: String::new(), typ: WaveScopeType::default() }
    }
}

impl WaveScopeInfo {
    /// A scope is shown by its name.
    pub fn to_string(&self) -> (s: String)
        ensures
            s@ == self.name@,
    {
        self.name.clone()
    }
}

/// A signal: its id code, name, width in bits and kind.
#[derive(Debug)]
pub struct WaveSignalInfo {
    pub id: u64,
    pub name: String,
    pub width: u64,
    pub typ: WaveSignalType,
}

impl Clone for WaveSignalInfo {
    fn clone(&self) -> (r: Self)
        ensures
            r == *self,
    {
        WaveSignalInfo { id: self.id, name: self.name.clone(), width: self.width, typ: self.typ }
    }
}

impl Default for WaveSignalInfo {
    fn default() -> (r: Self)
        ensures
            r.id == 0,
            r.name@ == Seq::<char>::empty(),
            r.width == 0,
            r.typ == WaveSignalType::Reg,
    {
        WaveSignalInfo { id: 0, name: String::new(), width: 0, typ: WaveSignalType::default() }
    }
}

impl WaveSignalInfo {
    /// The name, followed by `[<width - 1>:0]` for signals wider than one bit.
    pub open spec fn spec_to_string(self) -> Seq<char> {
        if self.width <= 1 {
            self.name@
        } else {
            self.name@ + seq!['['] + digits((self.width - 1) as nat, 10) + seq![':', '0', ']']
        }
    }

    pub fn to_string(&self) -> (s: String)
        ensures
            s@ == self.spec_to_string(),
    {
        if self.width <= 1 {
            self.name.clone()
        } else {
            let mut out: Vec<char> = Vec::new();
            push_str_chars(&mut out, &self.name);
            out.push('[');
            let w = decimal_chars(self.width - 1);
            push_all(&mut out, &w);
            out.push(':');
            out.push('0');
            out.push(']');
            assert(out@ =~= self.spec_to_string());
            string_from_chars(&out)
        }
    }
}

/// A node of the signal tree: the root, a scope, a signal, or a bare id.
#[derive(Debug)]
pub enum WaveTreeNode {
    WaveRoot,
    WaveScope(WaveScopeInfo),
    WaveVar(WaveSignalInfo),
    /// id only to save space (Not available now)
    WaveId(u64),
}

impl Clone for WaveTreeNode {
    fn clone(&self) -> (r: Self)
        ensures
            r == *self,
    {
        match self {
            WaveTreeNode::WaveRoot => WaveTreeNode::WaveRoot,
            WaveTreeNode::WaveScope(s) => WaveTreeNode::WaveScope(s.clone()),
            WaveTreeNode::WaveVar(v) => WaveTreeNode::WaveVar(v.clone()),
            WaveTreeNode::WaveId(id) => WaveTreeNode::WaveId(*id),
        }
    }
}

impl Default for WaveTreeNode {
    fn default() -> (n: Self)
        ensures
            n is WaveRoot,
    {
        WaveTreeNode::WaveRoot
    }
}

impl WaveTreeNode {
    pub open spec fn spec_to_string(self) -> Seq<char> {
        match self {
            WaveTreeNode::WaveRoot => seq!['r', 'o', 'o', 't'],
            WaveTreeNode::WaveScope(s) => s.name@,
            WaveTreeNode::WaveVar(i) => i.spec_to_string(),
            WaveTreeNode::WaveId(v) => digits(v as nat, 10),
        }
    }

    pub fn to_string(&self) -> (s: String)
        ensures
            s@ == self.spec_to_string(),
    {
        match self {
            WaveTreeNode::WaveRoot => {
                let c = vec!['r', 'o', 'o', 't'];
                string_from_chars(&c)
            },
            WaveTreeNode::WaveScope(s) => s.to_string(),
            WaveTreeNode::WaveVar(i) => i.to_string(),
            WaveTreeNode::WaveId(v) => {
                let c = decimal_chars(*v);
                string_from_chars(&c)
            },
        }
    }
}

/// What compressing the bits `bits` read at `timestamp` gives: two-state bits
/// become the shortest little-endian bytes of their number, others stay raw.
pub open spec fn compressed_raw(bits: Seq<WireValue>, timestamp: u64, out: WaveDataItem) -> bool {
    &&& out.timestamp == timestamp
    &&& if is_two_state(bits) {
        out.value matches WaveDataValue::Comp(b) && le_value(b@) == bits_value(bits) && is_minimal_le(
            b@,
        )
    } else {
        out.value matches WaveDataValue::Raw(v) && v@ == bits
    }
}

/// Value changes in order of time.
pub open spec fn sorted_by_time(s: Seq<WaveDataItem>) -> bool {
    forall|i: int, j: int| 0 <= i <= j < s.len() ==> s[i].timestamp <= s[j].timestamp
}

/// The value changes recorded for `id`; none when the id has no list.
pub open spec fn list_of(m: Map<u64, Vec<WaveDataItem>>, id: u64) -> Seq<WaveDataItem> {
    if m.dom().contains(id) {
        m[id]@
    } else {
        Seq::empty()
    }
}

/// Information about a loaded wave.
#[derive(Debug)]
pub struct WaveInfo {
    pub timescale: (u64, WaveTimescaleUnit),
    /// Position range
    pub range: (u64, u64),
    /// Extra information, as (name, text) pairs
    pub headers: Vec<(String, String)>,
    /// Signal info: (name, width) indexed by id
    pub code_signal_info: HashMap<u64, WaveSignalInfo>,
    /// Signal path indexed by id
    pub code_paths: HashMap<u64, Vec<String>>,
    /// Signal scope and vars tree
    pub tree: Tree<WaveTreeNode>,
}

/// loaded wave data in memory
#[derive(Debug)]
pub struct Wave {
    pub info: WaveInfo,
    pub data: HashMap<u64, Vec<WaveDataItem>>,
}

impl Wave {
    /// Find *nearest* value: the last change of signal `id` at or before `pos`;
    /// none for an id without changes, or when every change comes after `pos`.
    /// The changes of `id` must be in order of time.
    pub fn find_value(&self, id: u64, pos: u64) -> (r: Option<WaveDataItem>)
        requires
            self.data@.dom().contains(id) ==> sorted_by_time(self.data@[id]@),
        ensures
            r is Some <==> self.data@.dom().contains(id) && self.data@[id]@.len() > 0
                && self.data@[id]@[0].timestamp <= pos,
            r is Some ==> exists|k: int|
                0 <= k < self.data@[id]@.len() && same_item(r.unwrap(), #[trigger] self.data@[id]@[k])
                    && self.data@[id]@[k].timestamp <= pos && (k + 1 == self.data@[id]@.len()
                    || self.data@[id]@[k + 1].timestamp > pos),
    {
        match self.data.get(&id) {
            Some(data) => {
                let ghost list = data@;
                let mut lo: usize = 0;
                let mut hi: usize = data.len();
                while lo < hi
                    invariant
                        list == data@,
                        sorted_by_time(list),
                        lo <= hi <= list.len(),
                        forall|k: int| 0 <= k < lo ==> #[trigger] list[k].timestamp <= pos,
                        forall|k: int| hi <= k < list.len() ==> #[trigger] list[k].timestamp > pos,
                    decreases hi - lo,
                {
                    let mid = lo + (hi - lo) / 2;
                    if data[mid].timestamp <= pos {
                        assert forall|k: int| 0 <= k < mid + 1 implies #[trigger] list[k].timestamp
                            <= pos by {
                            assert(list[k].timestamp <= list[mid as int].timestamp);
                        }
                        lo = mid + 1;
                    } else {
                        assert forall|k: int| mid <= k < list.len() implies #[trigger] list[k].timestamp
                            > pos by {
                            assert(list[mid as int].timestamp <= list[k].timestamp);
                        }
                        hi = mid;
                    }
                }
                if lo == 0 {
                    assert(list.len() > 0 ==> list[0].timestamp > pos);
                    return None;
                }
                let k = lo - 1;
                let item = data[k].clone();
                assert(same_item(item, list[k as int]));
                Some(item)
            },
            None => None,
        }
    }
}

/// A wave format that can tell the last timestamp of a file from its last
/// lines before the file is loaded, so that loading can report progress.
pub trait WavePreLoader {
    /// `lines_from_end` holds the file's lines from the last one backwards.
    fn last_timestamp(lines_from_end: &Vec<String>) -> Option<u64>;
}

} // verus!
