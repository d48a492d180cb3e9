//! The manager of the viewer windows running on this machine: it keeps which
//! client (by port) shows which wave file, forgets clients that stopped
//! reporting, and decides where requests go.
use vstd::prelude::*;
use std::collections::HashMap;
use vstd::std_specs::iter::IteratorSpec;

verus! {

broadcast use vstd::std_specs::hash::group_hash_axioms;

/// Port of the manager; clients take the ports after it.
pub const MANAGER_PORT: u16 = 5411;

/// Time after which a client that has not reported is forgotten, in
/// milliseconds.
pub const CLIENT_TIMEOUT_MS: u64 = 2000;

/// A signal to show: the wave file it belongs to (empty for any file) and its
/// path.
#[derive(Debug)]
pub struct RvcdSignalPath {
    pub file: String,
    pub path: String,
}

/// What a client reports about itself.
#[derive(Debug)]
pub struct RvcdManagedInfo {
    pub client_port: u32,
    pub paths: Vec<String>,
    pub wave_file: String,
}

/// Requests that the manager passes on to the window it runs in.
#[derive(Debug)]
pub enum RvcdRpcMessage {
    GotoPath(RvcdSignalPath),
    OpenWaveFile(String),
    OpenSourceFile(String),
    OpenSourceDir(String),
}

#[derive(Clone, Copy, Debug, PartialEq, Eq, Structural)]
pub enum RvcdManagerMessage {
    Exit,
}

/// The clients known to the manager: by port, the wave file shown, the source
/// paths loaded, and when the client last reported (milliseconds).
#[derive(Debug)]
pub struct RvcdManager {
    pub managed_files: HashMap<u32, (String, Vec<String>, u64)>,
}

/// The ports of the clients that have not reported for longer than the time
/// out at `now`.
pub open spec fn stale_ports(m: Map<u32, (String, Vec<String>, u64)>, now: u64) -> Set<u32> {
    Set::new(|k: u32| m.contains_key(k) && m[k].2 < now && now - m[k].2 > CLIENT_TIMEOUT_MS)
}

/// The ports of the clients showing `file`; of all clients when `file` is
/// empty.
pub open spec fn target_ports(m: Map<u32, (String, Vec<String>, u64)>, file: Seq<char>) -> Set<
    u32,
> {
    Set::new(|k: u32| m.contains_key(k) && (m[k].0@ == file || file.len() == 0))
}

/// The ports of a map, without repetition, in the order the map walks them.
fn map_keys(m: &HashMap<u32, (String, Vec<String>, u64)>) -> (keys: Vec<u32>)
    ensures
        keys@.to_set() == m@.dom(),
        keys@.no_duplicates(),
{
    let mut keys: Vec<u32> = Vec::new();
    let ghost all = m.keys().remaining();
    proof {
        vstd::std_specs::hash::axiom_spec_keys_iter(m);
    }
    for k in it: m.keys()
        invariant
            it.seq() == all,
            keys@ == all.take(it.index() as int).map_values(|r: &u32| *r),
    {
        keys.push(*k);
        assert(keys@ =~= all.take(it.index() + 1).map_values(|r: &u32| *r));
    }
    assert(keys@ =~= all.map_values(|r: &u32| *r));
    assert(all.unref() =~= all.map_values(|r: &u32| *r));
    keys
}

impl RvcdManager {
    pub fn new() -> (m: Self)
        ensures
            m.managed_files@ == Map::<u32, (String, Vec<String>, u64)>::empty(),
    {
        RvcdManager { managed_files: HashMap::new() }
    }

    /// A request to open `path`: a message to open it here, unless a client
    /// already shows it.
    pub fn open_file(&self, path: &String) -> (r: Option<RvcdRpcMessage>)
        ensures
            r is None <==> exists|k: u32|
                self.managed_files@.contains_key(k) && #[trigger] self.managed_files@[k].0@ == path@,
            r matches Some(msg) ==> (msg matches RvcdRpcMessage::OpenWaveFile(p) && p@ == path@),
    {
        let keys = map_keys(&self.managed_files);
        let mut i: usize = 0;
        while i < keys.len()
            invariant
                i <= keys.len(),
                keys@.to_set() == self.managed_files@.dom(),
                forall|j: int| 0 <= j < i ==> #[trigger] self.managed_files@[keys@[j]].0@ != path@,
            decreases keys.len() - i,
        {
            assert(keys@.to_set().contains(keys@[i as int]));
            match self.managed_files.get(&keys[i]) {
                Some(v) => {
                    if v.0 == *path {
                        return None;
                    }
                },
                None => {},
            }
            i = i + 1;
        }
        assert forall|k: u32| self.managed_files@.contains_key(k) implies #[trigger] self.managed_files@[k].0@
            != path@ by {
            assert(keys@.to_set().contains(k));
            let j = choose|j: int| 0 <= j < keys@.len() && keys@[j] == k;
            assert(self.managed_files@[keys@[j]].0@ != path@);
        }
        Some(RvcdRpcMessage::OpenWaveFile(path.clone()))
    }

    /// The clients to ask to show a signal of `file`, without repetition, in
    /// the order the map walks them; when none of them takes it, the request
    /// goes to this window.
    pub fn goto_targets(&self, file: &String) -> (ports: Vec<u32>)
        ensures
            ports@.to_set() == target_ports(self.managed_files@, file@),
            ports@.no_duplicates(),
    {
        let keys = map_keys(&self.managed_files);
        let any_file = file.as_str().is_empty();
        let ghost target = target_ports(self.managed_files@, file@);
        let mut ports: Vec<u32> = Vec::new();
        let mut i: usize = 0;
        assert(keys@.take(0).to_set() =~= Set::<u32>::empty());
        assert(ports@.to_set() =~= Set::<u32>::empty());
        while i < keys.len()
            invariant
                i <= keys.len(),
                keys@.to_set() == self.managed_files@.dom(),
                keys@.no_duplicates(),
                any_file == (file@.len() == 0),
                target == target_ports(self.managed_files@, file@),
                ports@.no_duplicates(),
                ports@.to_set() == keys@.take(i as int).to_set().intersect(target),
            decreases keys.len() - i,
        {
            assert(keys@.to_set().contains(keys@[i as int]));
            let k = keys[i];
            let ghost before = ports@;
            proof {
                assert(keys@.take(i + 1) =~= keys@.take(i as int).push(k));
                keys@.take(i as int).lemma_push_to_set_commute(k);
                if before.contains(k) {
                    assert(before.to_set().contains(k));
                    assert(keys@.take(i as int).to_set().contains(k));
                    assert(keys@.take(i as int).contains(k));
                    let j = choose|j: int| 0 <= j < i && keys@.take(i as int)[j] == k;
                    assert(keys@[j] == keys@[i as int]);
                }
            }
            match self.managed_files.get(&k) {
                Some(v) => {
                    if v.0 == *file || any_file {
                        ports.push(k);
                        proof {
                            before.lemma_push_to_set_commute(k);
                        }
                    }
                },
                None => {},
            }
            assert(ports@.to_set() =~= keys@.take(i + 1).to_set().intersect(target));
            i = i + 1;
        }
        assert(keys@.take(keys.len() as int) =~= keys@);
        assert(ports@.to_set() =~= target);
        ports
    }

    /// A client reported at `now`: its entry is set, and the clients that have
    /// not reported for longer than the time out are forgotten. Returns those
    /// ports, to be pinged.
    pub fn client_info(&mut self, info: RvcdManagedInfo, now: u64) -> (stale: Vec<u32>)
        ensures
            stale@.to_set() == stale_ports(
                old(self).managed_files@.insert(info.client_port, (info.wave_file, info.paths, now)),
                now,
            ),
            stale@.no_duplicates(),
            final(self).managed_files@ == old(self).managed_files@.insert(
                info.client_port,
                (info.wave_file, info.paths, now),
            ).remove_keys(stale@.to_set()),
    {
        self.managed_files.insert(info.client_port, (info.wave_file, info.paths, now));
        let ghost updated = self.managed_files@;
        let keys = map_keys(&self.managed_files);
        let ghost target = stale_ports(updated, now);
        let mut stale: Vec<u32> = Vec::new();
        let mut i: usize = 0;
        assert(keys@.take(0).to_set() =~= Set::<u32>::empty());
        assert(stale@.to_set() =~= Set::<u32>::empty());
        while i < keys.len()
            invariant
                i <= keys.len(),
                self.managed_files@ == updated,
                keys@.to_set() == updated.dom(),
                keys@.no_duplicates(),
                target == stale_ports(updated, now),
                stale@.no_duplicates(),
                stale@.to_set() == keys@.take(i as int).to_set().intersect(target),
            decreases keys.len() - i,
        {
            assert(keys@.to_set().contains(keys@[i as int]));
            let k = keys[i];
            let ghost before = stale@;
            proof {
                assert(keys@.take(i + 1) =~= keys@.take(i as int).push(k));
                keys@.take(i as int).lemma_push_to_set_commute(k);
                if before.contains(k) {
                    assert(before.to_set().contains(k));
                    assert(keys@.take(i as int).to_set().contains(k));
                    assert(keys@.take(i as int).contains(k));
                    let j = choose|j: int| 0 <= j < i && keys@.take(i as int)[j] == k;
                    assert(keys@[j] == keys@[i as int]);
                }
            }
            match self.managed_files.get(&k) {
                Some(v) => {
                    if v.2 < now && now - v.2 > CLIENT_TIMEOUT_MS {
                        stale.push(k);
                        proof {
                            before.lemma_push_to_set_commute(k);
                        }
                    }
                },
                None => {},
            }
            assert(stale@.to_set() =~= keys@.take(i + 1).to_set().intersect(target));
            i = i + 1;
        }
        assert(keys@.take(keys.len() as int) =~= keys@);
        assert(stale@.to_set() =~= target);
        let mut j: usize = 0;
        while j < stale.len()
            invariant
                j <= stale.len(),
                self.managed_files@ == updated.remove_keys(stale@.take(j as int).to_set()),
            decreases stale.len() - j,
        {
            let ghost before = self.managed_files@;
            let _ = self.managed_files.remove(&stale[j]);
            proof {
                assert(stale@.take(j + 1) =~= stale@.take(j as int).push(stale@[j as int]));
                stale@.take(j as int).lemma_push_to_set_commute(stale@[j as int]);
            }
            assert(self.managed_files@ =~= updated.remove_keys(stale@.take(j + 1).to_set()));
            j = j + 1;
        }
        assert(stale@.take(stale.len() as int) =~= stale@);
        stale
    }

    /// A client asks to be forgotten; refused when the port is not known.
    pub fn remove_client(&mut self, key: u32) -> (r: Result<(), String>)
        ensures
            r is Ok <==> old(self).managed_files@.contains_key(key),
            r matches Err(e) ==> e@ == "No such key"@,
            final(self).managed_files@ == old(self).managed_files@.remove(key),
    {
        match self.managed_files.remove(&key) {
            Some(_) => Ok(()),
            None => Err("No such key".to_string()),
        }
    }

    /// Source files to load: one request each, in order.
    pub fn load_source(files: Vec<String>) -> (msgs: Vec<RvcdRpcMessage>)
        ensures
            msgs@.len() == files@.len(),
            forall|i: int|
                0 <= i < files@.len() ==> (#[trigger] msgs@[i] matches RvcdRpcMessage::OpenSourceFile(
                    f,
                ) && f == files@[i]),
    {
        let mut msgs: Vec<RvcdRpcMessage> = Vec::new();
        let mut i: usize = 0;
        while i < files.len()
            invariant
                i <= files.len(),
                msgs@.len() == i,
                forall|j: int|
                    0 <= j < i ==> (#[trigger] msgs@[j] matches RvcdRpcMessage::OpenSourceFile(f)
                        && f == files@[j]),
            decreases files.len() - i,
        {
            msgs.push(RvcdRpcMessage::OpenSourceFile(files[i].clone()));
            i = i + 1;
        }
        msgs
    }
}

} // verus!
