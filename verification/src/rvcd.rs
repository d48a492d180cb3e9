//! What a viewer window decides apart from drawing: its loading state and
//! title, which signals a request adds, which listed signals pass the search,
//! and whether a request to show a signal is its own.
use crate::text::{
    contains_str, decimal_chars, digits, has_substring, push_all, push_str_chars, regex_capture,
    regex_capture_group, regex_compiles, regex_valid, string_from_chars, string_to_chars,
};
use crate::manager::RvcdRpcMessage;
use crate::wave::{Wave, WaveInfo, WaveSignalInfo};
use vstd::prelude::*;

verus! {

/// Loading state of a window.
#[derive(Clone, Copy, Debug, PartialEq, Eq, Structural)]
pub enum State {
    Idle,
    Loading,
    Working,
}

impl Default for State {
    fn default() -> (s: Self)
        ensures
            s == State::Idle,
    {
        State::Idle
    }
}

/// A server that accepts open requests and does nothing with them.
#[derive(Debug)]
pub struct RvcdRemote {}

impl RvcdRemote {
    /// An open request is accepted.
    pub fn open_file(&self, _path: &String) -> (r: Result<(), String>)
        ensures
            r is Ok,
    {
        Ok(())
    }
}

/// `Rvcd-<id>`.
pub open spec fn default_title(id: usize) -> Seq<char> {
    seq!['R', 'v', 'c', 'd', '-'] + digits(id as nat, 10)
}

/// The last component of a path: what follows the last `/` or `\`.
pub open spec fn basename(path: Seq<char>) -> Seq<char>
    decreases path.len(),
{
    if path.len() == 0 {
        path
    } else if path.last() == '/' || path.last() == '\\' {
        Seq::empty()
    } else {
        basename(path.drop_last()).push(path.last())
    }
}

/// The last component of a path.
pub fn file_basename(path: &String) -> (name: String)
    ensures
        name@ == basename(path@),
{
    let chars = string_to_chars(path);
    let mut start: usize = chars.len();
    assert(chars@.take(start as int) =~= chars@);
    assert(chars@.skip(start as int) =~= Seq::<char>::empty());
    assert(basename(path@) =~= basename(chars@.take(start as int)) + chars@.skip(start as int));
    while start > 0 && chars[start - 1] != '/' && chars[start - 1] != '\\'
        invariant
            start <= chars@.len(),
            chars@ == path@,
            basename(path@) == basename(chars@.take(start as int)) + chars@.skip(start as int),
        decreases start,
    {
        assert(chars@.take(start as int).drop_last() =~= chars@.take(start - 1));
        assert(chars@.skip(start - 1) =~= seq![chars@[start - 1]] + chars@.skip(start as int));
        assert(basename(chars@.take(start as int)) == basename(chars@.take(start - 1)).push(
            chars@[start - 1],
        ));
        start = start - 1;
    }
    assert(basename(chars@.take(start as int)) =~= Seq::<char>::empty()) by {
        if start > 0 {
            assert(chars@.take(start as int).last() == chars@[start - 1]);
        }
    }
    let mut out: Vec<char> = Vec::new();
    let mut i: usize = start;
    while i < chars.len()
        invariant
            start <= i <= chars@.len(),
            out@ == chars@.subrange(start as int, i as int),
        decreases chars.len() - i,
    {
        out.push(chars[i]);
        assert(out@ =~= chars@.subrange(start as int, i + 1));
        i = i + 1;
    }
    assert(out@ =~= basename(path@));
    string_from_chars(&out)
}

/// The signals among `ids` that a wave declares, in order.
pub open spec fn declared_signals(ids: Seq<u64>, info: WaveInfo) -> Seq<u64>
    decreases ids.len(),
{
    if ids.len() == 0 {
        ids
    } else {
        let rest = declared_signals(ids.drop_last(), info);
        if info.code_signal_info@.dom().contains(ids.last()) {
            rest.push(ids.last())
        } else {
            rest
        }
    }
}

/// The signals among `ids` that a wave declares, in order.
pub fn keep_declared(ids: &Vec<u64>, info: &WaveInfo) -> (kept: Vec<u64>)
    ensures
        kept@ == declared_signals(ids@, *info),
{
    let mut kept: Vec<u64> = Vec::new();
    let mut i: usize = 0;
    assert(ids@.take(0) =~= Seq::<u64>::empty());
    while i < ids.len()
        invariant
            i <= ids.len(),
            kept@ == declared_signals(ids@.take(i as int), *info),
        decreases ids.len() - i,
    {
        assert(ids@.take(i + 1).drop_last() =~= ids@.take(i as int));
        assert(ids@.take(i + 1).last() == ids@[i as int]);
        if info.code_signal_info.contains_key(&ids[i]) {
            kept.push(ids[i]);
        }
        i = i + 1;
    }
    assert(ids@.take(ids.len() as int) =~= ids@);
    kept
}

/// Appends all ids of `b` to `a`.
fn append_ids(a: &mut Vec<u64>, b: &Vec<u64>)
    ensures
        final(a)@ == old(a)@ + b@,
{
    let mut i: usize = 0;
    while i < b.len()
        invariant
            i <= b.len(),
            a@ == old(a)@ + b@.take(i as int),
        decreases b.len() - i,
    {
        a.push(b[i]);
        i = i + 1;
        assert(a@ =~= old(a)@ + b@.take(i as int));
    }
    assert(b@.take(b.len() as int) =~= b@);
}

/// What a window holds apart from drawing: its id and title, its loading
/// state and file, the wave shown, the ids of the signals shown and of those
/// highlighted, the signal leaves listed in the side bar, the size part of the
/// loading progress, and the wave file it reports to the manager.
#[derive(Debug)]
pub struct RvcdSession {
    pub id: usize,
    pub title: String,
    pub state: State,
    pub filepath: String,
    pub wave: Option<Wave>,
    pub signals: Vec<u64>,
    pub highlight: Vec<u64>,
    pub leaves: Vec<WaveSignalInfo>,
    pub load_size: usize,
    pub wave_file: String,
}

/// The signals a window shows once loading of `path` starts: none for another
/// file; for the same file, those the wave shown declares (all when no wave is
/// shown).
pub open spec fn signals_on_load(s: RvcdSession, path: Seq<char>) -> Seq<u64> {
    if path != s.filepath@ {
        Seq::empty()
    } else {
        match s.wave {
            Some(w) => declared_signals(s.signals@, w.info),
            None => s.signals@,
        }
    }
}

/// An emptied window: no wave, no file, no signals, highlights or leaves,
/// idle and titled `Rvcd-<id>`; its id, loading size and reported file stay.
pub open spec fn is_reset(new: RvcdSession, old: RvcdSession) -> bool {
    &&& new.state == State::Idle
    &&& new.filepath@.len() == 0
    &&& new.title@ == default_title(old.id)
    &&& new.id == old.id
    &&& new.wave is None
    &&& new.signals@.len() == 0
    &&& new.highlight@.len() == 0
    &&& new.leaves@.len() == 0
    &&& new.load_size == old.load_size
    &&& new.wave_file == old.wave_file
}

/// Loading of `path` started: signals as [`signals_on_load`] says, leaves
/// emptied, file, reported file and title set, and an idle window starts
/// loading with its loading size reset.
pub open spec fn is_load_start(new: RvcdSession, old: RvcdSession, path: String) -> bool {
    &&& new.signals@ == signals_on_load(old, path@)
    &&& new.leaves@.len() == 0
    &&& new.filepath == path
    &&& new.wave_file == path
    &&& new.title@ == seq!['R', 'v', 'c', 'd', '-'] + basename(path@)
    &&& new.state == if old.state == State::Idle {
        State::Loading
    } else {
        old.state
    }
    &&& new.load_size == if old.state == State::Idle {
        0
    } else {
        old.load_size
    }
    &&& new.id == old.id
    &&& new.wave == old.wave
    &&& new.highlight == old.highlight
}

/// A wave arrived: it is shown, the signals it does not declare are dropped,
/// the leaves are emptied and the window works.
pub open spec fn is_wave_update(new: RvcdSession, old: RvcdSession, wave: Wave) -> bool {
    &&& new.wave == Some(wave)
    &&& new.signals@ == declared_signals(old.signals@, wave.info)
    &&& new.leaves@.len() == 0
    &&& new.state == State::Working
    &&& new.filepath == old.filepath
    &&& new.title == old.title
    &&& new.id == old.id
    &&& new.highlight == old.highlight
    &&& new.load_size == old.load_size
    &&& new.wave_file == old.wave_file
}

impl RvcdSession {
    /// A window with nothing loaded, titled `Rvcd-<id>`.
    pub fn new(id: usize) -> (s: Self)
        ensures
            s.id == id,
            s.title@ == default_title(id),
            s.state == State::Idle,
            s.filepath@.len() == 0,
            s.wave is None,
            s.signals@.len() == 0,
            s.highlight@.len() == 0,
            s.leaves@.len() == 0,
            s.load_size == 0,
            s.wave_file@.len() == 0,
    {
        RvcdSession {
            id,
            title: make_default_title(id),
            state: State::Idle,
            filepath: String::new(),
            wave: None,
            signals: Vec::new(),
            highlight: Vec::new(),
            leaves: Vec::new(),
            load_size: 0,
            wave_file: String::new(),
        }
    }

    /// The title shown: the file's title while a wave is shown, `Rvcd-<id>`
    /// otherwise.
    pub fn title(&self) -> (t: String)
        ensures
            self.state == State::Working ==> t@ == self.title@,
            self.state != State::Working ==> t@ == default_title(self.id),
    {
        match self.state {
            State::Working => self.title.clone(),
            _ => make_default_title(self.id),
        }
    }

    /// Loading of `path` started. Returns whether the signals shown were
    /// cleared (a different file) rather than checked against the wave shown
    /// (the same file). The leaves are emptied, the title becomes
    /// `Rvcd-<file name>`, the file is reported to the manager, and an idle
    /// window starts loading from size zero.
    pub fn file_load_start(&mut self, path: String) -> (clear_signals: bool)
        ensures
            clear_signals == (path@ != old(self).filepath@),
            is_load_start(*final(self), *old(self), path),
    {
        let clear = path != self.filepath;
        if clear {
            self.signals = Vec::new();
        } else {
            match &self.wave {
                Some(w) => {
                    let kept = keep_declared(&self.signals, &w.info);
                    self.signals = kept;
                },
                None => {},
            }
        }
        let name = file_basename(&path);
        let mut title: Vec<char> = vec!['R', 'v', 'c', 'd', '-'];
        push_str_chars(&mut title, &name);
        self.title = string_from_chars(&title);
        self.wave_file = path.clone();
        self.filepath = path;
        self.leaves = Vec::new();
        if self.state == State::Idle {
            self.load_size = 0;
            self.state = State::Loading;
        }
        clear
    }

    /// A dropped file is being opened.
    pub fn file_drag(&mut self)
        ensures
            *final(self) == (RvcdSession { state: State::Loading, ..*old(self) }),
    {
        self.state = State::Loading;
    }

    /// A wave arrived and is shown; the signals it does not declare are
    /// dropped and the leaves are emptied.
    pub fn wave_updated(&mut self, wave: Wave)
        ensures
            is_wave_update(*final(self), *old(self), wave),
    {
        let kept = keep_declared(&self.signals, &wave.info);
        self.signals = kept;
        self.wave = Some(wave);
        self.leaves = Vec::new();
        self.state = State::Working;
    }

    /// The window is emptied: no wave, file, signals or leaves, idle, titled
    /// `Rvcd-<id>`.
    pub fn reset(&mut self)
        ensures
            is_reset(*final(self), *old(self)),
    {
        self.wave = None;
        self.filepath = String::new();
        self.leaves = Vec::new();
        self.state = State::Idle;
        self.signals = Vec::new();
        self.highlight = Vec::new();
        self.title = make_default_title(self.id);
    }

    /// A request to show signal `target_file` was received; whether this window
    /// shows it (its own file, or any file when none is named). When not, the
    /// request belongs to another window.
    pub fn goto_here(&self, target_file: &String) -> (here: bool)
        ensures
            here == (self.filepath@ == target_file@ || target_file@.len() == 0),
    {
        *target_file == self.filepath || target_file.as_str().is_empty()
    }

    /// Handles a request passed on by the manager. Returns whether the request
    /// is left for another window (a wave file to open, or a signal of another
    /// named file), and what this window does: show the signal when the request
    /// is its own and a wave is shown, hand a wave file to the loader, or read
    /// a source file or directory.
    pub fn handle_rpc_message(&self, msg: RvcdRpcMessage) -> (r: (bool, RpcAction))
        ensures
            match msg {
                RvcdRpcMessage::GotoPath(p) => {
                    &&& r.0 == (p.file@ != self.filepath@ && p.file@.len() != 0)
                    &&& if !r.0 && self.wave is Some {
                        r.1 matches RpcAction::GotoSignal(path) && path == p.path
                    } else {
                        r.1 is NoAction
                    }
                },
                RvcdRpcMessage::OpenWaveFile(f) => r.0 && (r.1 matches RpcAction::OpenWave(g) && g
                    == f),
                RvcdRpcMessage::OpenSourceFile(f) => !r.0 && (r.1 matches RpcAction::OpenSource(g)
                    && g == f),
                RvcdRpcMessage::OpenSourceDir(d) => !r.0 && (r.1 matches RpcAction::OpenSourceDir(
                    g,
                ) && g == d),
            },
    {
        match msg {
            RvcdRpcMessage::GotoPath(p) => {
                let here = self.goto_here(&p.file);
                if here {
                    match &self.wave {
                        Some(_) => (false, RpcAction::GotoSignal(p.path)),
                        None => (false, RpcAction::NoAction),
                    }
                } else {
                    (true, RpcAction::NoAction)
                }
            },
            RvcdRpcMessage::OpenWaveFile(f) => (true, RpcAction::OpenWave(f)),
            RvcdRpcMessage::OpenSourceFile(f) => (false, RpcAction::OpenSource(f)),
            RvcdRpcMessage::OpenSourceDir(d) => (false, RpcAction::OpenSourceDir(d)),
        }
    }
}

/// What a window does for a request passed on by the manager.
#[derive(Debug)]
pub enum RpcAction {
    NoAction,
    /// Show the signal at this path.
    GotoSignal(String),
    /// Ask the loader to open this wave file.
    OpenWave(String),
    /// Read this source file.
    OpenSource(String),
    /// Take this directory as the source directory.
    OpenSourceDir(String),
}

/// What a window is told, as far as its own decisions go.
#[derive(Debug)]
pub enum SessionEvent {
    /// A loaded wave arrived.
    UpdateWave(Wave),
    /// Opening a file failed.
    FileOpenFailed,
    /// A file was dropped on the window.
    FileDrag(String),
    /// Loading of a file started.
    FileLoadStart(String),
    /// The size part of the loading progress.
    LoadingProgress(usize),
    /// Signals to show, by id.
    SetGotoSignals(Vec<u64>),
    /// The file shown is to be loaded again.
    Reload,
    /// Anything the window does not decide on.
    Other,
}

/// What a window does after an event, beyond its own state.
#[derive(Debug)]
pub enum SessionAction {
    NoAction,
    /// Tell that the file could not be opened.
    ShowOpenFailed,
    /// Ask the loader to open this file.
    OpenFile(String),
}

impl RvcdSession {
    /// Handles one event: a new wave is shown and the signals it lacks are
    /// dropped; a failed open empties the window and is told; a dropped file
    /// is handed to the loader while the window loads; a load start updates
    /// the window (see [`is_load_start`]); the loading size is kept; requested
    /// signals not shown yet are highlighted, and added when a wave is shown;
    /// a reload hands the file shown to the loader.
    pub fn on_message(&mut self, event: SessionEvent) -> (a: SessionAction)
        ensures
            match event {
                SessionEvent::UpdateWave(wave) => a is NoAction && is_wave_update(
                    *final(self),
                    *old(self),
                    wave,
                ),
                SessionEvent::FileOpenFailed => a is ShowOpenFailed && is_reset(
                    *final(self),
                    *old(self),
                ),
                SessionEvent::FileDrag(path) => {
                    &&& a matches SessionAction::OpenFile(p) && p == path
                    &&& *final(self) == (RvcdSession { state: State::Loading, ..*old(self) })
                },
                SessionEvent::FileLoadStart(path) => a is NoAction && is_load_start(
                    *final(self),
                    *old(self),
                    path,
                ),
                SessionEvent::LoadingProgress(size) => {
                    &&& a is NoAction
                    &&& *final(self) == (RvcdSession { load_size: size, ..*old(self) })
                },
                SessionEvent::SetGotoSignals(requested) => {
                    let add = requested@.filter(|id: u64| !old(self).signals@.contains(id));
                    &&& a is NoAction
                    &&& final(self).highlight@ == add
                    &&& final(self).signals@ == if old(self).wave is Some {
                        old(self).signals@ + add
                    } else {
                        old(self).signals@
                    }
                    &&& *final(self) == (RvcdSession {
                        signals: final(self).signals,
                        highlight: final(self).highlight,
                        ..*old(self)
                    })
                },
                SessionEvent::Reload => {
                    &&& a matches SessionAction::OpenFile(p) && p == old(self).filepath
                    &&& *final(self) == *old(self)
                },
                SessionEvent::Other => a is NoAction && *final(self) == *old(self),
            },
    {
        match event {
            SessionEvent::UpdateWave(wave) => {
                self.wave_updated(wave);
                SessionAction::NoAction
            },
            SessionEvent::FileOpenFailed => {
                self.reset();
                SessionAction::ShowOpenFailed
            },
            SessionEvent::FileDrag(path) => {
                self.file_drag();
                SessionAction::OpenFile(path)
            },
            SessionEvent::FileLoadStart(path) => {
                let _ = self.file_load_start(path);
                SessionAction::NoAction
            },
            SessionEvent::LoadingProgress(size) => {
                self.load_size = size;
                SessionAction::NoAction
            },
            SessionEvent::SetGotoSignals(requested) => {
                let add = signals_not_shown(&requested, &self.signals);
                if self.wave.is_some() {
                    append_ids(&mut self.signals, &add);
                }
                self.highlight = add;
                SessionAction::NoAction
            },
            SessionEvent::Reload => SessionAction::OpenFile(self.filepath.clone()),
            SessionEvent::Other => SessionAction::NoAction,
        }
    }
}

fn make_default_title(id: usize) -> (t: String)
    ensures
        t@ == default_title(id),
{
    let mut title: Vec<char> = vec!['R', 'v', 'c', 'd', '-'];
    let number = decimal_chars(id as u64);
    push_all(&mut title, &number);
    string_from_chars(&title)
}

/// Whether `id` is among `shown`.
pub fn shows_signal(shown: &Vec<u64>, id: u64) -> (r: bool)
    ensures
        r == shown@.contains(id),
{
    let mut i: usize = 0;
    while i < shown.len()
        invariant
            i <= shown.len(),
            forall|k: int| 0 <= k < i ==> shown@[k] != id,
        decreases shown.len() - i,
    {
        if shown[i] == id {
            assert(shown@[i as int] == id);
            return true;
        }
        i = i + 1;
    }
    false
}

/// A click asks to add signal `id`: it is added when repetition is allowed or
/// when it is not shown yet.
pub fn signal_to_add(shown: &Vec<u64>, id: u64, repetitive: bool) -> (add: bool)
    ensures
        add == (repetitive || !shown@.contains(id)),
{
    repetitive || !shows_signal(shown, id)
}

/// The signals of a request that are not shown yet, in the request's order.
pub fn signals_not_shown(requested: &Vec<u64>, shown: &Vec<u64>) -> (add: Vec<u64>)
    ensures
        add@ == requested@.filter(|id: u64| !shown@.contains(id)),
{
    let mut add: Vec<u64> = Vec::new();
    let mut i: usize = 0;
    while i < requested.len()
        invariant
            i <= requested.len(),
            add@ == requested@.take(i as int).filter(|id: u64| !shown@.contains(id)),
        decreases requested.len() - i,
    {
        proof {
            requested@.take(i as int).lemma_filter_push(
                requested@[i as int],
                |id: u64| !shown@.contains(id),
            );
            assert(requested@.take(i + 1) =~= requested@.take(i as int).push(requested@[i as int]));
        }
        if !shows_signal(shown, requested[i]) {
            add.push(requested[i]);
        }
        i = i + 1;
    }
    assert(requested@.take(requested.len() as int) =~= requested@);
    add
}

/// Whether a listed signal passes the search of the side bar: everything
/// passes an empty search or a search of the tree; otherwise, with `regex`,
/// names the pattern matches (nothing when it does not compile), else names
/// that contain the text.
pub open spec fn leaf_passes(name: Seq<char>, search: Seq<char>, regex: bool, tree: bool) -> bool {
    if search.len() == 0 || tree {
        true
    } else if regex {
        regex_compiles(search) && regex_capture(search, name, 0) is Some
    } else {
        has_substring(name, search)
    }
}

/// A plain search (not a regular expression, not of the tree) for a non-empty
/// text passes exactly the names that hold the text somewhere, at any
/// position; an empty search passes every name.
pub proof fn lemma_plain_search(name: Seq<char>, search: Seq<char>)
    ensures
        search.len() > 0 ==> (leaf_passes(name, search, false, false) <==> exists|i: int|
            0 <= i && i + search.len() <= name.len() && #[trigger] name.subrange(
                i,
                i + search.len(),
            ) == search),
        search.len() == 0 ==> leaf_passes(name, search, false, false),
{
}

/// The signals a plain search keeps are those of the list whose names hold
/// the search text, in order: a name holding it at any position is kept.
pub proof fn lemma_plain_search_keeps(
    leaves: Seq<WaveSignalInfo>,
    search: Seq<char>,
    s: WaveSignalInfo,
    i: int,
)
    requires
        search.len() > 0,
        leaves.contains(s),
        0 <= i && i + search.len() <= s.name@.len(),
        s.name@.subrange(i, i + search.len()) == search,
    ensures
        leaves.filter(|x: WaveSignalInfo| leaf_passes(x.name@, search, false, false)).contains(s),
{
    let f = |x: WaveSignalInfo| leaf_passes(x.name@, search, false, false);
    assert(f(s));
    let k = choose|k: int| 0 <= k < leaves.len() && leaves[k] == s;
    lemma_filter_keeps(leaves, f, k);
}

proof fn lemma_filter_keeps(
    leaves: Seq<WaveSignalInfo>,
    f: spec_fn(WaveSignalInfo) -> bool,
    k: int,
)
    requires
        0 <= k < leaves.len(),
        f(leaves[k]),
    ensures
        leaves.filter(f).contains(leaves[k]),
    decreases leaves.len(),
{
    reveal(Seq::filter);
    if k < leaves.len() - 1 {
        lemma_filter_keeps(leaves.drop_last(), f, k);
        assert(leaves.drop_last()[k] == leaves[k]);
        let sub = leaves.drop_last().filter(f);
        let j = choose|j: int| 0 <= j < sub.len() && sub[j] == leaves[k];
        if f(leaves.last()) {
            assert(leaves.filter(f) == sub.push(leaves.last()));
            assert(leaves.filter(f)[j] == leaves[k]);
        } else {
            assert(leaves.filter(f) == sub);
        }
    } else {
        assert(leaves.filter(f) == leaves.drop_last().filter(f).push(leaves.last()));
        assert(leaves.filter(f)[leaves.filter(f).len() - 1] == leaves[k]);
    }
}

/// The listed signals that pass the search of the side bar, in order.
pub fn filter_signal_leaves(
    leaves: &Vec<WaveSignalInfo>,
    search: &String,
    regex: bool,
    tree: bool,
) -> (r: Vec<WaveSignalInfo>)
    ensures
        r@ == leaves@.filter(|s: WaveSignalInfo| leaf_passes(s.name@, search@, regex, tree)),
{
    let valid = if regex && !tree {
        regex_valid(search.as_str())
    } else {
        false
    };
    let empty = search.as_str().is_empty();
    let mut out: Vec<WaveSignalInfo> = Vec::new();
    let mut i: usize = 0;
    while i < leaves.len()
        invariant
            i <= leaves.len(),
            empty == (search@.len() == 0),
            regex && !tree ==> valid == regex_compiles(search@),
            out@ == leaves@.take(i as int).filter(
                |s: WaveSignalInfo| leaf_passes(s.name@, search@, regex, tree),
            ),
        decreases leaves.len() - i,
    {
        proof {
            leaves@.take(i as int).lemma_filter_push(
                leaves@[i as int],
                |s: WaveSignalInfo| leaf_passes(s.name@, search@, regex, tree),
            );
            assert(leaves@.take(i + 1) =~= leaves@.take(i as int).push(leaves@[i as int]));
        }
        let s = &leaves[i];
        let pass = if empty || tree {
            true
        } else if regex {
            valid && regex_capture_group(search.as_str(), s.name.as_str(), 0).is_some()
        } else {
            contains_str(&s.name, search)
        };
        if pass {
            out.push(s.clone());
        }
        i = i + 1;
    }
    assert(leaves@.take(leaves.len() as int) =~= leaves@);
    out
}

} // verus!
