//! Human-readable file sizes.
use crate::text::{decimal_chars, digits, push_all, string_from_chars};
use vstd::arithmetic::div_mod::lemma_div_denominator;
use vstd::prelude::*;

verus! {

/// Unit of a file size.
#[derive(Clone, Copy, Debug, PartialEq, Eq, Structural)]
pub enum FileSizeUnit {
    MiB,
    KiB,
    Byte,
}

impl Default for FileSizeUnit {
    fn default() -> (u: Self)
        ensures
            u == FileSizeUnit::KiB,
    {
        FileSizeUnit::KiB
    }
}

impl FileSizeUnit {
    /// The next unit 1024 times smaller; none below bytes.
    pub open spec fn spec_smaller(self) -> Option<Self> {
        match self {
            FileSizeUnit::MiB => Some(FileSizeUnit::KiB),
            FileSizeUnit::KiB => Some(FileSizeUnit::Byte),
            FileSizeUnit::Byte => None,
        }
    }

    /// The next unit 1024 times larger; none above mebibytes.
    pub open spec fn spec_larger(self) -> Option<Self> {
        match self {
            FileSizeUnit::MiB => None,
            FileSizeUnit::KiB => Some(FileSizeUnit::MiB),
            FileSizeUnit::Byte => Some(FileSizeUnit::KiB),
        }
    }

    /// Number of bytes in one of the unit.
    pub open spec fn bytes(self) -> nat {
        match self {
            FileSizeUnit::MiB => 1048576,
            FileSizeUnit::KiB => 1024,
            FileSizeUnit::Byte => 1,
        }
    }

    /// The name of the unit: `MiB`, `KiB`, `Byte`.
    pub open spec fn spec_name(self) -> Seq<char> {
        match self {
            FileSizeUnit::MiB => seq!['M', 'i', 'B'],
            FileSizeUnit::KiB => seq!['K', 'i', 'B'],
            FileSizeUnit::Byte => seq!['B', 'y', 't', 'e'],
        }
    }

    pub fn smaller(&self) -> (r: Option<Self>)
        ensures
            r == self.spec_smaller(),
    {
        match self {
            FileSizeUnit::MiB => Some(FileSizeUnit::KiB),
            FileSizeUnit::KiB => Some(FileSizeUnit::Byte),
            FileSizeUnit::Byte => None,
        }
    }

    pub fn larger(&self) -> (r: Option<Self>)
        ensures
            r == self.spec_larger(),
    {
        match self {
            FileSizeUnit::MiB => None,
            FileSizeUnit::KiB => Some(FileSizeUnit::MiB),
            FileSizeUnit::Byte => Some(FileSizeUnit::KiB),
        }
    }

    /// The name of the unit, as it is printed.
    pub fn to_string(&self) -> (s: String)
        ensures
            s@ == self.spec_name(),
    {
        let c = match self {
            FileSizeUnit::MiB => vec!['M', 'i', 'B'],
            FileSizeUnit::KiB => vec!['K', 'i', 'B'],
            FileSizeUnit::Byte => vec!['B', 'y', 't', 'e'],
        };
        string_from_chars(&c)
    }

    /// A size of `bytes` in the largest unit in which it is still at least one,
    /// whole units only: `<count> <unit>`.
    pub fn from_bytes(bytes: usize) -> (s: String)
        ensures
            s@ == digits(size_count(bytes as nat) as nat, 10) + seq![' '] + size_unit(
                bytes as nat,
            ).spec_name(),
    {
        let mut sz: usize = bytes;
        let mut unit = FileSizeUnit::Byte;
        loop
            invariant
                sz as nat == bytes as nat / unit.bytes(),
                unit != FileSizeUnit::Byte ==> bytes as nat >= unit.bytes(),
            ensures
                sz as nat == size_count(bytes as nat),
                unit == size_unit(bytes as nat),
            decreases 2 - match unit {
                FileSizeUnit::Byte => 0int,
                FileSizeUnit::KiB => 1int,
                FileSizeUnit::MiB => 2int,
            },
        {
            match unit.larger() {
                Some(u) => {
                    if sz < 1024 {
                        break;
                    }
                    proof {
                        lemma_div_denominator(bytes as int, unit.bytes() as int, 1024);
                    }
                    sz = sz / 1024;
                    unit = u;
                },
                None => {
                    break;
                },
            }
        }
        let mut out: Vec<char> = decimal_chars(sz as u64);
        out.push(' ');
        let name = unit.to_string();
        let name_chars = crate::text::string_to_chars(&name);
        push_all(&mut out, &name_chars);
        assert(out@ =~= digits(size_count(bytes as nat) as nat, 10) + seq![' '] + size_unit(
            bytes as nat,
        ).spec_name());
        string_from_chars(&out)
    }
}

/// The unit a size of `bytes` is printed in: the largest one that fits at
/// least once, bytes for sizes under one KiB.
pub open spec fn size_unit(bytes: nat) -> FileSizeUnit {
    if bytes >= 1048576 {
        FileSizeUnit::MiB
    } else if bytes >= 1024 {
        FileSizeUnit::KiB
    } else {
        FileSizeUnit::Byte
    }
}

/// The number of whole units printed for a size of `bytes`.
pub open spec fn size_count(bytes: nat) -> nat {
    bytes / size_unit(bytes).bytes()
}

/// Going one unit smaller and then one larger (or the other way round) comes
/// back to the unit one started from.
pub proof fn lemma_file_size_smaller_larger(u: FileSizeUnit)
    ensures
        u.spec_smaller() matches Some(v) ==> v.spec_larger() == Some(u),
        u.spec_larger() matches Some(v) ==> v.spec_smaller() == Some(u),
        u.spec_smaller() matches Some(v) ==> u.bytes() == 1024 * v.bytes(),
{
}

/// The printed count is below 1024 unless the unit is the largest one, and at
/// least one unless the size is zero: the unit is the largest that fits.
pub proof fn lemma_size_count_range(bytes: nat)
    ensures
        size_unit(bytes) != FileSizeUnit::MiB ==> size_count(bytes) < 1024,
        bytes > 0 ==> size_count(bytes) >= 1,
        size_count(bytes) * size_unit(bytes).bytes() <= bytes < (size_count(bytes) + 1)
            * size_unit(bytes).bytes(),
{
    let b = size_unit(bytes).bytes() as int;
    assert(b > 0);
    vstd::arithmetic::div_mod::lemma_fundamental_div_mod(bytes as int, b);
    vstd::arithmetic::div_mod::lemma_mod_bound(bytes as int, b);
    assert(size_count(bytes) * b <= bytes < (size_count(bytes) + 1) * b) by (nonlinear_arith)
        requires
            bytes == b * (bytes as int / b) + bytes as int % b,
            0 <= bytes as int % b < b,
            size_count(bytes) == bytes as int / b,
    ;
}

} // verus!
