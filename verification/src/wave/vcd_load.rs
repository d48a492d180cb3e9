//! Loading a wave: the value changes of a VCD file read one command after
//! another, and the whole from the bytes of the file.
use crate::wave::scope_tree::{deeper, level_nodes, merge_items, tree_nodes};
use crate::wave::vcd_parser::{
    appended, entries_view, header_entries, header_timescale, items_name_walk, items_path_walk,
    paths_view, LoadProgress, VcdCommand, VcdHeader, VcdLoader,
};
use crate::wave::vcd_read::{
    read_commands, read_commands_are, read_commands_ok, read_header, read_header_is,
    read_header_ok, vcd_parse, vcd_parsed, VcdReadCommand, VcdReadHeader,
};
use crate::wave::{
    compressed_raw, list_of, Wave, WaveDataItem, WaveError, WaveTreeNode, WireValue,
};
use vstd::prelude::*;

verus! {

/// The changes of each signal read so far: the bits of each change, in order,
/// with the time it was read at.
pub type ChangeLog = Map<u64, Seq<(Seq<WireValue>, u64)>>;

/// Where a load stands after some commands: the current time, the smallest and
/// largest timestamps read, the time of the last progress report, the changes
/// read, and the progress reports made.
pub struct LoadModel {
    pub timestamp: u64,
    pub time_start: u64,
    pub time_stop: u64,
    pub notified: u64,
    pub changes: ChangeLog,
    pub reports: Seq<LoadProgress>,
}

/// The changes of signal `id` read so far.
pub open spec fn changes_of(c: ChangeLog, id: u64) -> Seq<(Seq<WireValue>, u64)> {
    if c.dom().contains(id) {
        c[id]
    } else {
        Seq::empty()
    }
}

/// Least advance of time between progress reports: a thousandth of the last
/// timestamp when it is known, else none.
pub open spec fn load_skip(last: Option<u64>) -> u64 {
    match last {
        Some(l) => l / 1000,
        None => 0,
    }
}

/// Where a load stands before any command.
pub open spec fn load_start() -> LoadModel {
    LoadModel {
        timestamp: 0,
        time_start: 0xfffffffffffff,
        time_stop: 0,
        notified: 0,
        changes: Map::empty(),
        reports: Seq::empty(),
    }
}

/// Timestamp `t` is weighed for a progress report.
pub open spec fn load_checked(m: LoadModel, t: u64, last: Option<u64>) -> bool {
    load_skip(last) > 0 && m.time_start < t && last is Some
}

/// Reading timestamp `t` makes a progress report: it is weighed and lies more
/// than the least advance past the last report.
pub open spec fn load_fires(m: LoadModel, t: u64, last: Option<u64>) -> bool {
    load_checked(m, t, last) && m.notified + load_skip(last) < t
}

/// One command read: none when it is a vector change without any bit.
pub open spec fn load_step(m: LoadModel, c: VcdCommand, last: Option<u64>) -> Option<LoadModel> {
    match c {
        VcdCommand::Timestamp(t) => Some(
            LoadModel {
                timestamp: t,
                time_start: if t < m.time_start {
                    t
                } else {
                    m.time_start
                },
                time_stop: if m.time_stop < t {
                    t
                } else {
                    m.time_stop
                },
                notified: if load_fires(m, t, last) {
                    t
                } else {
                    m.notified
                },
                changes: m.changes,
                reports: if load_fires(m, t, last) {
                    m.reports.push(LoadProgress { elapsed: (t - m.time_start) as u64, timestamp: t })
                } else {
                    m.reports
                },
            },
        ),
        VcdCommand::ChangeScalar(id, w) => Some(
            LoadModel {
                timestamp: m.timestamp,
                time_start: m.time_start,
                time_stop: m.time_stop,
                notified: m.notified,
                changes: m.changes.insert(id, changes_of(m.changes, id).push((seq![w], m.timestamp))),
                reports: m.reports,
            },
        ),
        VcdCommand::ChangeVector(id, bits) => if bits@.len() == 0 {
            None
        } else {
            Some(
                LoadModel {
                    timestamp: m.timestamp,
                    time_start: m.time_start,
                    time_stop: m.time_stop,
                    notified: m.notified,
                    changes: m.changes.insert(
                        id,
                        changes_of(m.changes, id).push((bits@, m.timestamp)),
                    ),
                    reports: m.reports,
                },
            )
        },
        VcdCommand::Other => Some(m),
    }
}

/// The commands read one after another from the start; none once a command
/// fails.
pub open spec fn load_run(cmds: Seq<VcdCommand>, last: Option<u64>) -> Option<LoadModel>
    decreases cmds.len(),
{
    if cmds.len() == 0 {
        Some(load_start())
    } else {
        match load_run(cmds.drop_last(), last) {
            Some(m) => load_step(m, cmds.last(), last),
            None => None,
        }
    }
}

/// The progress reports made while reading the commands, up to the first one
/// that fails.
pub open spec fn load_reports(cmds: Seq<VcdCommand>, last: Option<u64>) -> Seq<LoadProgress>
    decreases cmds.len(),
{
    if cmds.len() == 0 {
        Seq::empty()
    } else {
        match load_run(cmds.drop_last(), last) {
            Some(m) => match load_step(m, cmds.last(), last) {
                Some(m1) => m1.reports,
                None => m.reports,
            },
            None => load_reports(cmds.drop_last(), last),
        }
    }
}

/// Reading the commands reaches a timestamp whose progress report would be
/// weighed past the largest 64-bit number.
pub open spec fn load_overflows(cmds: Seq<VcdCommand>, last: Option<u64>) -> bool
    decreases cmds.len(),
{
    if cmds.len() == 0 {
        false
    } else {
        load_overflows(cmds.drop_last(), last) || match load_run(cmds.drop_last(), last) {
            Some(m) => match cmds.last() {
                VcdCommand::Timestamp(t) => load_checked(m, t, last) && m.notified + load_skip(last)
                    > u64::MAX,
                _ => false,
            },
            None => false,
        }
    }
}

/// The lists of a wave hold, for each signal, its changes read: one item per
/// change, the change's bits compressed at the time it was read.
pub open spec fn data_holds(data: Map<u64, Vec<WaveDataItem>>, changes: ChangeLog) -> bool {
    &&& data.dom() == changes.dom()
    &&& forall|id: u64| #[trigger]
        changes.dom().contains(id) ==> data[id]@.len() == changes[id].len() && forall|k: int|
            0 <= k < changes[id].len() ==> compressed_raw(
                changes[id][k].0,
                changes[id][k].1,
                #[trigger] data[id]@[k],
            )
}

/// A loader stands where the model does.
pub open spec fn loader_is(l: VcdLoader, m: LoadModel, last: Option<u64>) -> bool {
    &&& l.timestamp == m.timestamp
    &&& l.time_start == m.time_start
    &&& l.time_stop == m.time_stop
    &&& l.timestamp_notified == m.notified
    &&& l.timestamp_skip == load_skip(last)
    &&& l.last_timestamp == last
    &&& data_holds(l.data@, m.changes)
}

/// What a wave takes from the header: its time scale, texts, signals, paths
/// and scope tree.
pub open spec fn wave_of_header(w: Wave, header: VcdHeader) -> bool {
    &&& w.info.timescale == header_timescale(header)
    &&& entries_view(w.info.headers@) == header_entries(header)
    &&& w.info.code_signal_info@ == items_name_walk(header.items@, Map::empty())
    &&& paths_view(w.info.code_paths@) == items_path_walk(header.items@, Seq::empty(), Map::empty()).1
    &&& tree_nodes(w.info.tree) == seq![(0nat, WaveTreeNode::WaveRoot)] + deeper(
        level_nodes(merge_items(header.items@), 0),
    )
}

/// The wave that a header and its commands give: an error when a vector
/// change has no bit, else the header's information, the range of the
/// timestamps read and the changes read.
pub open spec fn commands_loaded(
    header: VcdHeader,
    commands: Seq<VcdCommand>,
    last: Option<u64>,
    r: Result<Wave, WaveError>,
) -> bool {
    match load_run(commands, last) {
        None => r == Err::<Wave, WaveError>(WaveError::CompressInvalidData),
        Some(m) => {
            &&& r is Ok
            &&& wave_of_header(r.unwrap(), header)
            &&& r.unwrap().info.range == (m.time_start, m.time_stop)
            &&& data_holds(r.unwrap().data@, m.changes)
        },
    }
}

/// Two commands that a loader reads alike.
pub open spec fn same_command(a: VcdCommand, b: VcdCommand) -> bool {
    match (a, b) {
        (VcdCommand::Timestamp(s), VcdCommand::Timestamp(t)) => s == t,
        (VcdCommand::ChangeScalar(i, v), VcdCommand::ChangeScalar(j, w)) => i == j && v == w,
        (VcdCommand::ChangeVector(i, v), VcdCommand::ChangeVector(j, w)) => i == j && v@ == w@,
        (VcdCommand::Other, VcdCommand::Other) => true,
        _ => false,
    }
}

/// A copy of a command.
fn copy_command(c: &VcdCommand) -> (r: VcdCommand)
    ensures
        same_command(r, *c),
{
    match c {
        VcdCommand::Timestamp(t) => VcdCommand::Timestamp(*t),
        VcdCommand::ChangeScalar(i, v) => VcdCommand::ChangeScalar(*i, *v),
        VcdCommand::ChangeVector(i, v) => {
            let mut bits: Vec<WireValue> = Vec::new();
            let mut k: usize = 0;
            while k < v.len()
                invariant
                    k <= v.len(),
                    bits@ == v@.take(k as int),
                decreases v.len() - k,
            {
                bits.push(v[k]);
                assert(bits@ =~= v@.take(k + 1));
                k = k + 1;
            }
            assert(v@.take(v.len() as int) =~= v@);
            VcdCommand::ChangeVector(*i, bits)
        },
        VcdCommand::Other => VcdCommand::Other,
    }
}

/// A change appended to a list keeps the lists holding the changes read, with
/// the new change added to its signal's.
proof fn lemma_appended_holds(
    before: Map<u64, Vec<WaveDataItem>>,
    after: Map<u64, Vec<WaveDataItem>>,
    changes: ChangeLog,
    id: u64,
    bits: Seq<WireValue>,
    ts: u64,
)
    requires
        data_holds(before, changes),
        appended(before, after, id, bits, ts),
    ensures
        data_holds(after, changes.insert(id, changes_of(changes, id).push((bits, ts)))),
{
    let nc = changes.insert(id, changes_of(changes, id).push((bits, ts)));
    assert(after.dom() =~= nc.dom());
    assert forall|j: u64| #[trigger] nc.dom().contains(j) implies after[j]@.len() == nc[j].len()
        && forall|k: int|
        0 <= k < nc[j].len() ==> compressed_raw(nc[j][k].0, nc[j][k].1, #[trigger] after[j]@[k]) by {
        if j == id {
            let old_list = list_of(before, id);
            let new_list = list_of(after, id);
            assert(new_list == after[j]@);
            assert(old_list.len() == changes_of(changes, id).len());
            assert forall|k: int| 0 <= k < nc[j].len() implies compressed_raw(
                nc[j][k].0,
                nc[j][k].1,
                #[trigger] after[j]@[k],
            ) by {
                if k < nc[j].len() - 1 {
                    assert(new_list[k] == new_list.drop_last()[k]);
                    assert(before.dom().contains(id));
                    assert(old_list[k] == before[id]@[k]);
                    assert(nc[j][k] == changes[id][k]);
                }
            }
        } else {
            assert(before.dom().contains(j));
            assert(nc[j] == changes[j]);
        }
    }
}

/// Reading more commands never takes back a failure.
proof fn lemma_run_fails_on(cmds: Seq<VcdCommand>, n: int, last: Option<u64>)
    requires
        0 <= n <= cmds.len(),
        load_run(cmds.take(n), last) is None,
    ensures
        load_run(cmds, last) is None,
    decreases cmds.len() - n,
{
    if n < cmds.len() {
        assert(cmds.take(n + 1).drop_last() =~= cmds.take(n));
        lemma_run_fails_on(cmds, n + 1, last);
    } else {
        assert(cmds.take(n) =~= cmds);
    }
}

/// Once a command fails, the commands after it add no report.
proof fn lemma_reports_after_fail(cmds: Seq<VcdCommand>, n: int, last: Option<u64>)
    requires
        0 <= n <= cmds.len(),
        load_run(cmds.take(n), last) is None,
    ensures
        load_reports(cmds, last) == load_reports(cmds.take(n), last),
    decreases cmds.len() - n,
{
    if n < cmds.len() {
        assert(cmds.take(n + 1).drop_last() =~= cmds.take(n));
        lemma_reports_after_fail(cmds, n + 1, last);
    } else {
        assert(cmds.take(n) =~= cmds);
    }
}

/// When every command is read, the reports are those of the load.
proof fn lemma_reports_of_run(cmds: Seq<VcdCommand>, last: Option<u64>)
    requires
        load_run(cmds, last) is Some,
    ensures
        load_reports(cmds, last) == load_run(cmds, last).unwrap().reports,
{
}

/// Commands that never overflow begin with commands that never do.
proof fn lemma_no_overflow_prefix(cmds: Seq<VcdCommand>, n: int, last: Option<u64>)
    requires
        0 <= n <= cmds.len(),
        !load_overflows(cmds, last),
    ensures
        !load_overflows(cmds.take(n), last),
    decreases cmds.len() - n,
{
    if n < cmds.len() {
        lemma_no_overflow_prefix(cmds, n + 1, last);
        assert(cmds.take(n + 1).drop_last() =~= cmds.take(n));
    } else {
        assert(cmds.take(n) =~= cmds);
    }
}

/// Loads a wave from a header and the commands that follow it: the commands
/// are read one after another by a [`VcdLoader`] made with `last_timestamp`,
/// and the loader is finished with the header. The first vector change
/// without any bit ends the load with its error. The progress reports made on
/// the way are appended to `progress`.
pub fn load_commands(
    header: &VcdHeader,
    commands: &Vec<VcdCommand>,
    last_timestamp: Option<u64>,
    progress: &mut Vec<LoadProgress>,
) -> (r: Result<Wave, WaveError>)
    requires
        !load_overflows(commands@, last_timestamp),
    ensures
        commands_loaded(*header, commands@, last_timestamp, r),
        final(progress)@ == old(progress)@ + load_reports(commands@, last_timestamp),
{
    let mut loader = VcdLoader::new(last_timestamp);
    let mut i: usize = 0;
    assert(commands@.take(0) =~= Seq::<VcdCommand>::empty());
    assert(loader.data@ =~= Map::<u64, Vec<WaveDataItem>>::empty());
    while i < commands.len()
        invariant
            i <= commands.len(),
            !load_overflows(commands@, last_timestamp),
            load_run(commands@.take(i as int), last_timestamp) is Some,
            loader_is(loader, load_run(commands@.take(i as int), last_timestamp).unwrap(), last_timestamp),
            progress@ == old(progress)@ + load_run(commands@.take(i as int), last_timestamp).unwrap().reports,
        decreases commands.len() - i,
    {
        let ghost m = load_run(commands@.take(i as int), last_timestamp).unwrap();
        let ghost c = commands@[i as int];
        proof {
            assert(commands@.take(i + 1).drop_last() =~= commands@.take(i as int));
            assert(commands@.take(i + 1).last() == c);
            lemma_no_overflow_prefix(commands@, i + 1, last_timestamp);
        }
        let command = copy_command(&commands[i]);
        let ghost before = loader;
        let step = loader.on_command(command);
        match step {
            Ok(Some(p)) => {
                progress.push(p);
            },
            Ok(None) => {},
            Err(e) => {
                proof {
                    lemma_run_fails_on(commands@, i + 1, last_timestamp);
                    lemma_reports_after_fail(commands@, i + 1, last_timestamp);
                    assert(load_reports(commands@.take(i + 1), last_timestamp) == m.reports);
                }
                return Err(e);
            },
        }
        proof {
            let m1 = load_step(m, c, last_timestamp).unwrap();
            match c {
                VcdCommand::ChangeScalar(id, w) => {
                    lemma_appended_holds(before.data@, loader.data@, m.changes, id, seq![w], m.timestamp);
                },
                VcdCommand::ChangeVector(id, bits) => {
                    lemma_appended_holds(before.data@, loader.data@, m.changes, id, bits@, m.timestamp);
                },
                _ => {},
            }
            assert(loader_is(loader, m1, last_timestamp));
            assert(progress@ =~= old(progress)@ + m1.reports);
        }
        i = i + 1;
    }
    assert(commands@.take(commands.len() as int) =~= commands@);
    proof {
        lemma_reports_of_run(commands@, last_timestamp);
    }
    loader.finish(header)
}

/// An overflow among the first commands is an overflow of them all.
proof fn lemma_overflow_grows(cmds: Seq<VcdCommand>, n: int, last: Option<u64>)
    requires
        0 <= n <= cmds.len(),
        load_overflows(cmds.take(n), last),
    ensures
        load_overflows(cmds, last),
    decreases cmds.len() - n,
{
    if n < cmds.len() {
        assert(cmds.take(n + 1).drop_last() =~= cmds.take(n));
        lemma_overflow_grows(cmds, n + 1, last);
    } else {
        assert(cmds.take(n) =~= cmds);
    }
}

/// Once a command fails, the commands after it are never read, so they add
/// no overflow.
proof fn lemma_overflow_after_fail(cmds: Seq<VcdCommand>, n: int, last: Option<u64>)
    requires
        0 <= n <= cmds.len(),
        load_run(cmds.take(n), last) is None,
    ensures
        load_overflows(cmds, last) == load_overflows(cmds.take(n), last),
    decreases cmds.len() - n,
{
    if n < cmds.len() {
        assert(cmds.take(n + 1).drop_last() =~= cmds.take(n));
        lemma_overflow_after_fail(cmds, n + 1, last);
    } else {
        assert(cmds.take(n) =~= cmds);
    }
}

/// Whether reading the commands reaches a timestamp whose progress report
/// would be weighed past the largest 64-bit number.
pub fn load_would_overflow(commands: &Vec<VcdCommand>, last_timestamp: Option<u64>) -> (b: bool)
    ensures
        b == load_overflows(commands@, last_timestamp),
{
    let skip: u64 = match last_timestamp {
        Some(l) => l / 1000,
        None => 0,
    };
    let mut time_start: u64 = 0xfffffffffffff;
    let mut notified: u64 = 0;
    let mut i: usize = 0;
    assert(commands@.take(0) =~= Seq::<VcdCommand>::empty());
    while i < commands.len()
        invariant
            i <= commands.len(),
            skip == load_skip(last_timestamp),
            load_run(commands@.take(i as int), last_timestamp) is Some,
            load_run(commands@.take(i as int), last_timestamp).unwrap().time_start == time_start,
            load_run(commands@.take(i as int), last_timestamp).unwrap().notified == notified,
            !load_overflows(commands@.take(i as int), last_timestamp),
        decreases commands.len() - i,
    {
        let ghost m = load_run(commands@.take(i as int), last_timestamp).unwrap();
        proof {
            assert(commands@.take(i + 1).drop_last() =~= commands@.take(i as int));
            assert(commands@.take(i + 1).last() == commands@[i as int]);
        }
        match &commands[i] {
            VcdCommand::Timestamp(t) => {
                let checked = skip > 0 && time_start < *t && last_timestamp.is_some();
                if checked && notified > u64::MAX - skip {
                    proof {
                        lemma_overflow_grows(commands@, i + 1, last_timestamp);
                    }
                    return true;
                }
                if checked && notified + skip < *t {
                    notified = *t;
                }
                if *t < time_start {
                    time_start = *t;
                }
            },
            VcdCommand::ChangeVector(_, bits) => {
                if bits.len() == 0 {
                    proof {
                        lemma_overflow_after_fail(commands@, i + 1, last_timestamp);
                    }
                    return false;
                }
            },
            _ => {},
        }
        i = i + 1;
    }
    assert(commands@.take(commands.len() as int) =~= commands@);
    false
}

/// What loading gives for what the vcd crate read, with the progress reports
/// made: an error and no report when the file declares something the library
/// does not know; else, for the header and commands read back, an error and
/// no report when a progress report would overflow, and otherwise the wave and
/// the reports that reading the commands gives.
pub open spec fn vcd_loaded(
    rh: VcdReadHeader,
    rc: Seq<VcdReadCommand>,
    last: Option<u64>,
    r: Result<Wave, WaveError>,
    reports: Seq<LoadProgress>,
) -> bool {
    if !read_header_ok(rh) || !read_commands_ok(rc) {
        r == Err::<Wave, WaveError>(WaveError::VcdUnknown) && reports.len() == 0
    } else {
        exists|h: VcdHeader, cs: Seq<VcdCommand>|
            #![trigger read_header_is(rh, h), read_commands_are(rc, cs)]
            {
                &&& read_header_is(rh, h)
                &&& read_commands_are(rc, cs)
                &&& if load_overflows(cs, last) {
                    r == Err::<Wave, WaveError>(WaveError::TimestampOverflow) && reports.len() == 0
                } else {
                    commands_loaded(h, cs, last, r) && reports == load_reports(cs, last)
                }
            }
    }
}

/// Loads a wave from the bytes of a VCD file: the vcd crate reads the header
/// and the commands, the library reads them back into its own types and loads
/// the commands with `last_timestamp` (see [`load_commands`]), appending the
/// progress reports to `progress`.
pub fn load_vcd(
    data: &[u8],
    last_timestamp: Option<u64>,
    progress: &mut Vec<LoadProgress>,
) -> (r: Result<Wave, WaveError>)
    ensures
        match vcd_parsed(data@) {
            None => r == Err::<Wave, WaveError>(WaveError::VcdParse),
            Some((rh, rc)) => vcd_loaded(rh, rc, last_timestamp, r, final(progress)@.skip(
                old(progress)@.len() as int,
            )),
        },
        final(progress)@.take(old(progress)@.len() as int) == old(progress)@,
{
    proof {
        assert(progress@.skip(progress@.len() as int) =~= Seq::<LoadProgress>::empty());
        assert(progress@.take(progress@.len() as int) =~= progress@);
    }
    let (rh, rc) = match vcd_parse(data) {
        Some(p) => p,
        None => {
            return Err(WaveError::VcdParse);
        },
    };
    let ghost read = rh;
    let header = match read_header(rh) {
        Some(h) => h,
        None => {
            return Err(WaveError::VcdUnknown);
        },
    };
    let commands = match read_commands(&rc) {
        Some(c) => c,
        None => {
            return Err(WaveError::VcdUnknown);
        },
    };
    assert(read_header_is(read, header) && read_commands_are(rc@, commands@));
    if load_would_overflow(&commands, last_timestamp) {
        return Err(WaveError::TimestampOverflow);
    }
    let ghost before = progress@;
    let r = load_commands(&header, &commands, last_timestamp, progress);
    assert(progress@.skip(before.len() as int) =~= load_reports(commands@, last_timestamp));
    assert(progress@.take(before.len() as int) =~= before);
    r
}

} // verus!
