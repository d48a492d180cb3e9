//! The viewer windows of the application, by id: which exist, which are open,
//! and which one fills the screen; and the interface language taken from the
//! environment.
use crate::text::{string_from_chars, string_to_chars};
use vstd::prelude::*;

verus! {

/// The windows of the application: their ids in order of creation, whether
/// each is open, and the one shown maximized, if any.
#[derive(Debug)]
pub struct RvcdWindows {
    pub apps: Vec<usize>,
    pub open_apps: Vec<(usize, bool)>,
    pub app_now_id: Option<usize>,
}

/// The largest id among `ids`, none when there is none.
pub open spec fn max_id(ids: Seq<usize>) -> Option<usize>
    decreases ids.len(),
{
    if ids.len() == 0 {
        None
    } else {
        match max_id(ids.drop_last()) {
            Some(m) => Some(if m < ids.last() { ids.last() } else { m }),
            None => Some(ids.last()),
        }
    }
}

/// Every id is at most the largest one; the largest one is among them.
pub proof fn lemma_max_id(ids: Seq<usize>)
    ensures
        max_id(ids) is None <==> ids.len() == 0,
        max_id(ids) matches Some(m) ==> (forall|k: int| 0 <= k < ids.len() ==> #[trigger] ids[k]
            <= m) && ids.contains(m),
    decreases ids.len(),
{
    if ids.len() > 0 {
        let rest = ids.drop_last();
        lemma_max_id(rest);
        assert forall|k: int| 0 <= k < rest.len() implies rest[k] == ids[k] by {}
        if rest.len() > 0 {
            let m = max_id(rest).unwrap();
            let k = choose|k: int| 0 <= k < rest.len() && rest[k] == m;
            assert(ids[k] == m);
        }
        assert(ids[ids.len() - 1] == ids.last());
    }
}

/// The ids of the windows whose flag says closed, in order.
pub open spec fn closed_ids(open: Seq<(usize, bool)>) -> Seq<usize>
    decreases open.len(),
{
    if open.len() == 0 {
        Seq::empty()
    } else if !open.last().1 {
        closed_ids(open.drop_last()).push(open.last().0)
    } else {
        closed_ids(open.drop_last())
    }
}

/// The positions in `apps` of the ids in `ids`, ascending.
pub open spec fn positions_of(apps: Seq<usize>, ids: Seq<usize>) -> Seq<int>
    decreases apps.len(),
{
    if apps.len() == 0 {
        Seq::empty()
    } else if ids.contains(apps.last()) {
        positions_of(apps.drop_last(), ids).push(apps.len() - 1)
    } else {
        positions_of(apps.drop_last(), ids)
    }
}

/// The ids in `apps` that are in `ids`, in the order of `apps`.
pub open spec fn members(apps: Seq<usize>, ids: Seq<usize>) -> Seq<usize> {
    apps.filter(|a: usize| ids.contains(a))
}

/// The open flags without those of window `id`.
pub open spec fn without(o: Seq<(usize, bool)>, id: usize) -> Seq<(usize, bool)>
    decreases o.len(),
{
    if o.len() == 0 {
        Seq::empty()
    } else if o.last().0 != id {
        without(o.drop_last(), id).push(o.last())
    } else {
        without(o.drop_last(), id)
    }
}

/// Removes, one after the other, the window at each position of `idx` (a
/// position is taken in the list as it is at that moment; one past its end is
/// skipped), and every entry of the removed id from the open flags.
pub open spec fn remove_positions(apps: Seq<usize>, open: Seq<(usize, bool)>, idx: Seq<int>) -> (
    Seq<usize>,
    Seq<(usize, bool)>,
)
    decreases idx.len(),
{
    if idx.len() == 0 {
        (apps, open)
    } else {
        let (a, o) = remove_positions(apps, open, idx.drop_last());
        let i = idx.last();
        if 0 <= i < a.len() {
            (a.remove(i), without(o, a[i]))
        } else {
            (a, o)
        }
    }
}

impl RvcdWindows {
    /// No window yet.
    pub fn new() -> (w: Self)
        ensures
            w.apps@.len() == 0,
            w.open_apps@.len() == 0,
            w.app_now_id is None,
    {
        RvcdWindows { apps: Vec::new(), open_apps: Vec::new(), app_now_id: None }
    }

    /// At start: a first window 0 when there is none, and every window open.
    pub fn init(&mut self)
        ensures
            old(self).apps@.len() == 0 ==> final(self).apps@ == seq![0usize],
            old(self).apps@.len() > 0 ==> final(self).apps@ == old(self).apps@,
            final(self).open_apps@ == final(self).apps@.map_values(|id: usize| (id, true)),
            final(self).app_now_id == old(self).app_now_id,
    {
        if self.apps.len() == 0 {
            self.apps.push(0);
            assert(self.apps@ =~= seq![0usize]);
        }
        let mut open: Vec<(usize, bool)> = Vec::new();
        let mut i: usize = 0;
        while i < self.apps.len()
            invariant
                i <= self.apps@.len(),
                old(self).apps@.len() == 0 ==> self.apps@ == seq![0usize],
                old(self).apps@.len() > 0 ==> self.apps@ == old(self).apps@,
                self.app_now_id == old(self).app_now_id,
                open@ == self.apps@.take(i as int).map_values(|id: usize| (id, true)),
            decreases self.apps.len() - i,
        {
            open.push((self.apps[i], true));
            assert(open@ =~= self.apps@.take(i + 1).map_values(|id: usize| (id, true)));
            i = i + 1;
        }
        assert(self.apps@.take(self.apps@.len() as int) =~= self.apps@);
        self.open_apps = open;
    }

    /// Id for a new window: one more than the largest in use, or 0.
    pub fn new_id(&self) -> (id: usize)
        requires
            max_id(self.apps@) matches Some(m) ==> m < usize::MAX,
        ensures
            id == match max_id(self.apps@) {
                Some(m) => (m + 1) as usize,
                None => 0usize,
            },
    {
        let mut best: Option<usize> = None;
        let mut i: usize = 0;
        while i < self.apps.len()
            invariant
                i <= self.apps@.len(),
                best == max_id(self.apps@.take(i as int)),
            decreases self.apps.len() - i,
        {
            assert(self.apps@.take(i + 1).drop_last() =~= self.apps@.take(i as int));
            let id = self.apps[i];
            best = match best {
                Some(m) => Some(if m < id { id } else { m }),
                None => Some(id),
            };
            i = i + 1;
        }
        assert(self.apps@.take(self.apps@.len() as int) =~= self.apps@);
        match best {
            Some(m) => m + 1,
            None => 0,
        }
    }

    /// Opens a new window with a fresh id, maximized if asked.
    pub fn new_window(&mut self, maximize: bool) -> (id: usize)
        requires
            max_id(old(self).apps@) matches Some(m) ==> m < usize::MAX,
        ensures
            id == match max_id(old(self).apps@) {
                Some(m) => (m + 1) as usize,
                None => 0usize,
            },
            !old(self).apps@.contains(id),
            final(self).apps@ == old(self).apps@.push(id),
            final(self).open_apps@ == old(self).open_apps@.push((id, true)),
            final(self).app_now_id == if maximize {
                Some(id)
            } else {
                old(self).app_now_id
            },
    {
        let id = self.new_id();
        proof {
            lemma_max_id(self.apps@);
            if self.apps@.contains(id) {
                let k = choose|k: int| 0 <= k < self.apps@.len() && self.apps@[k] == id;
                assert(self.apps@[k] <= max_id(self.apps@).unwrap());
            }
        }
        self.apps.push(id);
        self.open_apps.push((id, true));
        if maximize {
            self.app_now_id = Some(id);
        }
        id
    }

    /// Closes every window; returns their ids, to be told they exit.
    pub fn close_all(&mut self) -> (exiting: Vec<usize>)
        ensures
            exiting@ == old(self).apps@,
            final(self).apps@.len() == 0,
            final(self).open_apps@.len() == 0,
            final(self).app_now_id is None,
    {
        let mut exiting: Vec<usize> = Vec::new();
        std::mem::swap(&mut exiting, &mut self.apps);
        self.app_now_id = None;
        self.open_apps = Vec::new();
        exiting
    }

    /// Removes the windows whose flag says closed. The maximized window is no
    /// longer maximized when it is among them. The ids of the windows to be told
    /// they exit are returned in order; then the windows are removed one by one
    /// at the positions they had at the start, each with its open flags.
    pub fn remove_closed(&mut self) -> (exiting: Vec<usize>)
        ensures
            exiting@ == members(old(self).apps@, closed_ids(old(self).open_apps@)),
            final(self).app_now_id == match old(self).app_now_id {
                Some(id) => if closed_ids(old(self).open_apps@).contains(id) {
                    None
                } else {
                    Some(id)
                },
                None => None,
            },
            (final(self).apps@, final(self).open_apps@) == remove_positions(
                old(self).apps@,
                old(self).open_apps@,
                positions_of(old(self).apps@, closed_ids(old(self).open_apps@)),
            ),
    {
        let ghost apps0 = self.apps@;
        let ghost open0 = self.open_apps@;
        let to_removes = closed_of(&self.open_apps);
        match self.app_now_id {
            Some(id) => {
                if contains_id(&to_removes, id) {
                    self.app_now_id = None;
                }
            },
            None => {},
        }
        let ghost now1 = self.app_now_id;
        let exiting = members_of(&self.apps, &to_removes);
        let indexes = positions_in(&self.apps, &to_removes);
        let mut j: usize = 0;
        assert(indexes@.take(0) =~= Seq::<usize>::empty());
        assert(int_seq(indexes@.take(0)) =~= Seq::<int>::empty());
        while j < indexes.len()
            invariant
                j <= indexes@.len(),
                int_seq(indexes@) == positions_of(apps0, closed_ids(open0)),
                self.app_now_id == now1,
                (self.apps@, self.open_apps@) == remove_positions(
                    apps0,
                    open0,
                    int_seq(indexes@.take(j as int)),
                ),
            decreases indexes.len() - j,
        {
            let i = indexes[j];
            assert(int_seq(indexes@.take(j + 1)).drop_last() =~= int_seq(indexes@.take(j as int)));
            assert(int_seq(indexes@.take(j + 1)).last() == i as int);
            let ghost a = self.apps@;
            if i < self.apps.len() {
                let removed = self.apps.remove(i);
                assert(removed == a[i as int]);
                let kept = without_id(&self.open_apps, removed);
                self.open_apps = kept;
            }
            j = j + 1;
        }
        assert(indexes@.take(indexes@.len() as int) =~= indexes@);
        exiting
    }
}

/// The positions as integers.
pub open spec fn int_seq(s: Seq<usize>) -> Seq<int> {
    s.map_values(|i: usize| i as int)
}

fn closed_of(open: &Vec<(usize, bool)>) -> (r: Vec<usize>)
    ensures
        r@ == closed_ids(open@),
{
    let mut r: Vec<usize> = Vec::new();
    let mut i: usize = 0;
    while i < open.len()
        invariant
            i <= open@.len(),
            r@ == closed_ids(open@.take(i as int)),
        decreases open.len() - i,
    {
        assert(open@.take(i + 1).drop_last() =~= open@.take(i as int));
        if !open[i].1 {
            r.push(open[i].0);
        }
        i = i + 1;
    }
    assert(open@.take(open@.len() as int) =~= open@);
    r
}

fn contains_id(ids: &Vec<usize>, id: usize) -> (r: bool)
    ensures
        r == ids@.contains(id),
{
    let mut i: usize = 0;
    while i < ids.len()
        invariant
            i <= ids@.len(),
            forall|k: int| 0 <= k < i ==> ids@[k] != id,
        decreases ids.len() - i,
    {
        if ids[i] == id {
            assert(ids@[i as int] == id);
            return true;
        }
        i = i + 1;
    }
    false
}

fn members_of(apps: &Vec<usize>, ids: &Vec<usize>) -> (r: Vec<usize>)
    ensures
        r@ == members(apps@, ids@),
{
    let mut r: Vec<usize> = Vec::new();
    let mut i: usize = 0;
    while i < apps.len()
        invariant
            i <= apps@.len(),
            r@ == members(apps@.take(i as int), ids@),
        decreases apps.len() - i,
    {
        proof {
            apps@.take(i as int).lemma_filter_push(apps@[i as int], |a: usize| ids@.contains(a));
            assert(apps@.take(i + 1) =~= apps@.take(i as int).push(apps@[i as int]));
        }
        if contains_id(ids, apps[i]) {
            r.push(apps[i]);
        }
        i = i + 1;
    }
    assert(apps@.take(apps@.len() as int) =~= apps@);
    r
}

fn positions_in(apps: &Vec<usize>, ids: &Vec<usize>) -> (r: Vec<usize>)
    ensures
        int_seq(r@) == positions_of(apps@, ids@),
{
    let mut r: Vec<usize> = Vec::new();
    let mut i: usize = 0;
    assert(int_seq(r@) =~= Seq::<int>::empty());
    while i < apps.len()
        invariant
            i <= apps@.len(),
            int_seq(r@) == positions_of(apps@.take(i as int), ids@),
        decreases apps.len() - i,
    {
        assert(apps@.take(i + 1).drop_last() =~= apps@.take(i as int));
        assert(apps@.take(i + 1).last() == apps@[i as int]);
        if contains_id(ids, apps[i]) {
            let ghost before = r@;
            r.push(i);
            assert(int_seq(r@) =~= int_seq(before).push(i as int));
        }
        i = i + 1;
    }
    assert(apps@.take(apps@.len() as int) =~= apps@);
    r
}

fn without_id(open: &Vec<(usize, bool)>, id: usize) -> (r: Vec<(usize, bool)>)
    ensures
        r@ == without(open@, id),
{
    let mut r: Vec<(usize, bool)> = Vec::new();
    let mut i: usize = 0;
    while i < open.len()
        invariant
            i <= open@.len(),
            r@ == without(open@.take(i as int), id),
        decreases open.len() - i,
    {
        assert(open@.take(i + 1).drop_last() =~= open@.take(i as int));
        assert(open@.take(i + 1).last() == open@[i as int]);
        if open[i].0 != id {
            r.push(open[i]);
        }
        i = i + 1;
    }
    assert(open@.take(open@.len() as int) =~= open@);
    r
}

/// `s` with every occurrence of `pat` (taken left to right, without overlap)
/// replaced by `rep`.
pub open spec fn replace_all(s: Seq<char>, pat: Seq<char>, rep: Seq<char>) -> Seq<char>
    decreases s.len(),
{
    if s.len() == 0 || pat.len() == 0 {
        s
    } else if pat.len() <= s.len() && s.take(pat.len() as int) == pat {
        rep + replace_all(s.skip(pat.len() as int), pat, rep)
    } else {
        seq![s[0]] + replace_all(s.skip(1), pat, rep)
    }
}

fn replace_chars(s: &Vec<char>, pat: &Vec<char>, rep: &Vec<char>) -> (r: Vec<char>)
    requires
        pat@.len() > 0,
    ensures
        r@ == replace_all(s@, pat@, rep@),
{
    let mut out: Vec<char> = Vec::new();
    let mut i: usize = 0;
    assert(s@.skip(0) =~= s@);
    while i < s.len()
        invariant
            i <= s@.len(),
            pat@.len() > 0,
            out@ + replace_all(s@.skip(i as int), pat@, rep@) == replace_all(s@, pat@, rep@),
        decreases s.len() - i,
    {
        let n: usize = s.len();
        let fits = pat.len() <= n - i;
        let mut k: usize = 0;
        if fits {
            while k < pat.len() && s[i + k] == pat[k]
                invariant
                    n == s@.len(),
                    i < s@.len(),
                    pat@.len() <= s@.len() - i,
                    k <= pat@.len(),
                    forall|q: int| 0 <= q < k ==> s@[i + q] == pat@[q],
                decreases pat.len() - k,
            {
                k = k + 1;
            }
        }
        let matched = fits && k == pat.len();
        proof {
            let rest = s@.skip(i as int);
            if fits && !matched {
                assert(rest.take(pat@.len() as int)[k as int] == s@[i + k]);
                assert(rest.take(pat@.len() as int)[k as int] != pat@[k as int]);
            }
        }
        let ghost rest = s@.skip(i as int);
        if matched {
            assert(rest.take(pat@.len() as int) =~= pat@);
            assert(rest.skip(pat@.len() as int) =~= s@.skip(i + pat@.len()));
            let ghost before = out@;
            let mut q: usize = 0;
            while q < rep.len()
                invariant
                    q <= rep@.len(),
                    out@ == before + rep@.take(q as int),
                decreases rep.len() - q,
            {
                out.push(rep[q]);
                assert(out@ =~= before + rep@.take(q + 1));
                q = q + 1;
            }
            assert(rep@.take(rep@.len() as int) =~= rep@);
            assert(out@ + replace_all(s@.skip(i + pat@.len()), pat@, rep@) =~= before + replace_all(
                rest,
                pat@,
                rep@,
            ));
            i = i + pat.len();
        } else {
            assert(rest.skip(1) =~= s@.skip(i + 1));
            let ghost before = out@;
            out.push(s[i]);
            assert(out@ + replace_all(s@.skip(i + 1), pat@, rep@) =~= before + replace_all(
                rest,
                pat@,
                rep@,
            ));
            i = i + 1;
        }
    }
    assert(s@.skip(i as int) =~= Seq::<char>::empty());
    assert(out@ + replace_all(s@.skip(i as int), pat@, rep@) =~= out@);
    out
}

/// The language tag of a `LANG` value: `_` becomes `-` and `.UTF-8` is
/// dropped (`zh_CN.UTF-8` gives `zh-CN`).
pub fn locale_from_lang(lang: &String) -> (locale: String)
    ensures
        locale@ == replace_all(
            replace_all(lang@, seq!['_'], seq!['-']),
            seq!['.', 'U', 'T', 'F', '-', '8'],
            Seq::empty(),
        ),
{
    let chars = string_to_chars(lang);
    let under = vec!['_'];
    let dash = vec!['-'];
    assert(under@ =~= seq!['_']);
    assert(dash@ =~= seq!['-']);
    let step = replace_chars(&chars, &under, &dash);
    let suffix = vec!['.', 'U', 'T', 'F', '-', '8'];
    let empty: Vec<char> = Vec::new();
    assert(suffix@ =~= seq!['.', 'U', 'T', 'F', '-', '8']);
    assert(empty@ =~= Seq::<char>::empty());
    let done = replace_chars(&step, &suffix, &empty);
    string_from_chars(&done)
}

} // verus!
