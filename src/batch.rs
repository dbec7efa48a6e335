//! The state that a batch run shares between its workers: the progress of
//! the run and the per-file results, each written under one lock.

use vstd::prelude::*;
use vstd::utf8::encode_utf8;
use crate::color::Color;

verus! {

/// The percentage of a run: floor(completed / total * 100), at most 100;
/// a run of no file is complete.
pub open spec fn percent_spec(completed: nat, total: nat) -> nat {
    if completed >= total {
        100
    } else {
        completed * 100 / total
    }
}

/// Progress of a batch run: files completed out of a total, and the path of
/// the file completed last.
#[derive(Debug)]
pub struct ProgressState {
    pub completed: u64,
    pub total: u64,
    pub current_file: String,
}

impl ProgressState {
    /// The progress of a run of `total` files, none completed.
    pub fn new(total: u64) -> (r: ProgressState)
        ensures
            r.completed == 0,
            r.total == total,
            r.current_file@ == Seq::<char>::empty(),
    {
        ProgressState { completed: 0, total, current_file: String::new() }
    }

    /// Records that the file at `path` is complete.
    pub fn record(&mut self, path: String)
        requires
            old(self).completed < u64::MAX,
        ensures
            final(self).completed == old(self).completed + 1,
            final(self).total == old(self).total,
            final(self).current_file@ == path@,
    {
        self.completed = self.completed + 1;
        self.current_file = path;
    }

    /// The percentage completed, rounded down and at most 100.
    pub fn percent(&self) -> (r: u16)
        ensures
            r == percent_spec(self.completed as nat, self.total as nat),
            r <= 100,
    {
        if self.completed >= self.total {
            100
        } else {
            let p: u128 = (self.completed as u128 * 100) / (self.total as u128);
            proof {
                lemma_percent_below_hundred(self.completed as nat, self.total as nat);
            }
            p as u16
        }
    }
}

proof fn lemma_percent_below_hundred(completed: nat, total: nat)
    requires
        completed < total,
    ensures
        completed * 100 / total < 100,
{
    assert(completed * 100 / total < 100) by (nonlinear_arith)
        requires
            completed < total,
    ;
}

/// The percentage never exceeds 100, and it is exactly 100 once every file
/// of the run is complete.
pub proof fn lemma_percent_complete(completed: nat, total: nat)
    ensures
        percent_spec(completed, total) <= 100,
        completed == total ==> percent_spec(completed, total) == 100,
{
    if completed < total {
        lemma_percent_below_hundred(completed, total);
    }
}

/// Phase of the progress gauge shown during a batch run.
#[derive(Clone, Copy, Debug, PartialEq, Eq, Structural)]
pub enum GaugeAppState {
    Running,
    Started,
    Quitting,
}

/// A key press, as far as the gauge and the browser tell keys apart.
#[derive(Clone, Copy, Debug, PartialEq, Eq, Structural)]
pub enum KeyPress {
    Char(char),
    Esc,
    Up,
    Down,
    Left,
    Other,
}

/// The progress gauge: its phase, the percentage shown and the last file.
#[derive(Debug)]
pub struct GaugeApp {
    pub state: GaugeAppState,
    pub progress: u16,
    pub current_file: String,
}

/// Whether a key asks to quit: q, Q or Esc, or c or C with Control.
pub open spec fn quits(key: KeyPress, control: bool) -> bool {
    match key {
        KeyPress::Char(c) => c == 'q' || c == 'Q' || (control && (c == 'c' || c == 'C')),
        KeyPress::Esc => true,
        _ => false,
    }
}

impl GaugeApp {
    /// A gauge at 0%, not yet started.
    pub fn new() -> (r: GaugeApp)
        ensures
            r.state == GaugeAppState::Running,
            r.progress == 0,
            r.current_file@ == Seq::<char>::empty(),
    {
        GaugeApp { state: GaugeAppState::Running, progress: 0, current_file: String::new() }
    }

    /// Shows `inc` percent and `path` while started; at 100% the gauge is full
    /// and quits.
    pub fn update(&mut self, inc: u16, path: String)
        ensures
            old(self).state != GaugeAppState::Started ==> final(self).state == old(self).state
                && final(self).progress == old(self).progress && final(self).current_file@ == old(
                self,
            ).current_file@,
            old(self).state == GaugeAppState::Started ==> {
                &&& final(self).current_file@ == path@
                &&& final(self).progress == if inc >= 100 {
                    100
                } else {
                    inc
                }
                &&& final(self).state == if inc >= 100 {
                    GaugeAppState::Quitting
                } else {
                    GaugeAppState::Started
                }
            },
    {
        if self.state != GaugeAppState::Started {
            return;
        }
        self.current_file = path;
        self.progress = inc;
        if self.progress >= 100 {
            self.progress = 100;
            self.state = GaugeAppState::Quitting;
        }
    }

    /// Starts the gauge.
    pub fn start(&mut self)
        ensures
            final(self).state == GaugeAppState::Started,
            final(self).progress == old(self).progress,
            final(self).current_file@ == old(self).current_file@,
    {
        self.state = GaugeAppState::Started;
    }

    /// Quits the gauge.
    pub fn quit(&mut self)
        ensures
            final(self).state == GaugeAppState::Quitting,
            final(self).progress == old(self).progress,
            final(self).current_file@ == old(self).current_file@,
    {
        self.state = GaugeAppState::Quitting;
    }

    /// Whether the gauge is quitting.
    pub fn is_quitting(&self) -> (r: bool)
        ensures
            r == (self.state == GaugeAppState::Quitting),
    {
        self.state == GaugeAppState::Quitting
    }

    /// Handles a key pressed while the gauge is shown: a quit key quits,
    /// any other key (re)starts it.
    pub fn handle_key(&mut self, key: KeyPress, control: bool)
        ensures
            final(self).state == if quits(key, control) {
                GaugeAppState::Quitting
            } else {
                GaugeAppState::Started
            },
            final(self).progress == old(self).progress,
            final(self).current_file@ == old(self).current_file@,
    {
        let q = match key {
            KeyPress::Char(c) => c == 'q' || c == 'Q' || (control && (c == 'c' || c == 'C')),
            KeyPress::Esc => true,
            _ => false,
        };
        if q {
            self.quit();
        } else {
            self.start();
        }
    }
}

/// The palette of one file of a batch, or the message of what went wrong.
#[derive(Debug)]
pub struct ScanEntry {
    pub path: String,
    pub colors: Result<Vec<Color>, String>,
}

/// The results of a batch run, one entry per path.
#[derive(Debug)]
pub struct ScanResult {
    entries: Vec<ScanEntry>,
}

/// The paths of `s`.
pub open spec fn paths_of(s: Seq<ScanEntry>) -> Seq<Seq<char>> {
    s.map_values(|e: ScanEntry| e.path@)
}

/// No path occurs twice.
pub open spec fn unique_paths(s: Seq<ScanEntry>) -> bool {
    forall|i: int, j: int|
        0 <= i < s.len() && 0 <= j < s.len() && i != j ==> (#[trigger] s[i]).path@
            != (#[trigger] s[j]).path@
}

/// Byte-wise lexicographic order, the order of Rust strings.
pub open spec fn bytes_le(a: Seq<u8>, b: Seq<u8>) -> bool
    decreases a.len(),
{
    if a.len() == 0 {
        true
    } else if b.len() == 0 {
        false
    } else if a[0] != b[0] {
        a[0] < b[0]
    } else {
        bytes_le(a.drop_first(), b.drop_first())
    }
}

/// Whether path `a` comes before or equals path `b`.
pub open spec fn path_le(a: Seq<char>, b: Seq<char>) -> bool {
    bytes_le(encode_utf8(a), encode_utf8(b))
}

/// Puts `e` into `s` after every entry whose path does not come after it.
pub open spec fn insert_by_path(s: Seq<ScanEntry>, e: ScanEntry) -> Seq<ScanEntry>
    decreases s.len(),
{
    if s.len() == 0 {
        seq![e]
    } else if path_le(s[0].path@, e.path@) {
        seq![s[0]] + insert_by_path(s.drop_first(), e)
    } else {
        seq![e] + s
    }
}

/// `s` sorted by path.
pub open spec fn sort_by_path_spec(s: Seq<ScanEntry>) -> Seq<ScanEntry>
    decreases s.len(),
{
    if s.len() == 0 {
        s
    } else {
        insert_by_path(sort_by_path_spec(s.drop_last()), s.last())
    }
}

/// Whether byte string `a` comes before or equals `b`.
fn bytes_less_eq(a: &[u8], b: &[u8]) -> (r: bool)
    ensures
        r == bytes_le(a@, b@),
{
    let mut i: usize = 0;
    assert(a@.subrange(0, a@.len() as int) =~= a@);
    assert(b@.subrange(0, b@.len() as int) =~= b@);
    while i < a.len() && i < b.len() && a[i] == b[i]
        invariant
            i <= a@.len(),
            i <= b@.len(),
            bytes_le(a@, b@) == bytes_le(a@.subrange(i as int, a@.len() as int), b@.subrange(i as int, b@.len() as int)),
        decreases a@.len() - i,
    {
        let ghost sa = a@.subrange(i as int, a@.len() as int);
        let ghost sb = b@.subrange(i as int, b@.len() as int);
        assert(sa.drop_first() =~= a@.subrange(i + 1, a@.len() as int));
        assert(sb.drop_first() =~= b@.subrange(i + 1, b@.len() as int));
        i = i + 1;
    }
    if i == a.len() {
        true
    } else if i == b.len() {
        false
    } else {
        a[i] < b[i]
    }
}

/// Whether path `a` comes before or equals path `b`, byte by byte.
fn path_less_eq(a: &String, b: &String) -> (r: bool)
    ensures
        r == path_le(a@, b@),
{
    bytes_less_eq(a.as_str().as_bytes(), b.as_str().as_bytes())
}

proof fn lemma_insert_by_path_at(s: Seq<ScanEntry>, e: ScanEntry, p: int)
    requires
        0 <= p <= s.len(),
        forall|j: int| 0 <= j < p ==> path_le((#[trigger] s[j]).path@, e.path@),
        p < s.len() ==> !path_le(s[p].path@, e.path@),
    ensures
        insert_by_path(s, e) == s.insert(p, e),
    decreases s.len(),
{
    if p == 0 {
        assert(s.insert(0, e) =~= seq![e] + s);
    } else {
        let t = s.drop_first();
        assert forall|j: int| 0 <= j < p - 1 implies path_le((#[trigger] t[j]).path@, e.path@) by {
            assert(t[j] == s[j + 1]);
        }
        lemma_insert_by_path_at(t, e, p - 1);
        assert(s.insert(p, e) =~= seq![s[0]] + t.insert(p - 1, e));
    }
}

impl ScanResult {
    /// The entries, in the order they were written.
    pub closed spec fn view(&self) -> Seq<ScanEntry> {
        self.entries@
    }

    /// No path occurs twice.
    pub open spec fn wf(&self) -> bool {
        unique_paths(self.view())
    }

    /// An empty result.
    pub fn new() -> (r: ScanResult)
        ensures
            r.wf(),
            r.view() == Seq::<ScanEntry>::empty(),
    {
        ScanResult { entries: Vec::new() }
    }

    /// The number of entries.
    pub fn len(&self) -> (r: usize)
        ensures
            r == self.view().len(),
    {
        self.entries.len()
    }

    /// Whether an entry for `path` is present.
    pub fn contains_path(&self, path: &String) -> (r: bool)
        ensures
            r == exists|i: int| 0 <= i < self.view().len() && (#[trigger] self.view()[i]).path@ == path@,
    {
        let mut i: usize = 0;
        while i < self.entries.len()
            invariant
                i <= self.entries@.len(),
                forall|j: int| 0 <= j < i ==> (#[trigger] self.entries@[j]).path@ != path@,
            decreases self.entries@.len() - i,
        {
            if self.entries[i].path == *path {
                assert(self.view()[i as int].path@ == path@);
                return true;
            }
            i = i + 1;
        }
        false
    }

    /// Writes the result of the file at `path`; the first write of a path wins.
    pub fn insert(&mut self, path: String, colors: Result<Vec<Color>, String>)
        requires
            old(self).wf(),
        ensures
            final(self).wf(),
            (exists|i: int| 0 <= i < old(self).view().len() && (#[trigger] old(self).view()[i]).path@ == path@)
                ==> final(self).view() == old(self).view(),
            !(exists|i: int| 0 <= i < old(self).view().len() && (#[trigger] old(self).view()[i]).path@ == path@)
                ==> final(self).view() == old(self).view().push((ScanEntry { path, colors })),
    {
        if self.contains_path(&path) {
            return;
        }
        let ghost before = self.entries@;
        self.entries.push(ScanEntry { path, colors });
        assert(unique_paths(self.entries@)) by {
            assert forall|i: int, j: int|
                0 <= i < self.entries@.len() && 0 <= j < self.entries@.len() && i != j implies (#[trigger] self.entries@[i]).path@
                != (#[trigger] self.entries@[j]).path@ by {
                if i < before.len() && j < before.len() {
                    assert(self.entries@[i] == before[i]);
                    assert(self.entries@[j] == before[j]);
                } else if i < before.len() {
                    assert(self.entries@[i] == before[i]);
                } else {
                    assert(self.entries@[j] == before[j]);
                }
            }
        }
    }

    /// The results of a batch, one entry per path; of two entries with the
    /// same path the first is kept.
    pub fn collect(entries: Vec<ScanEntry>) -> (r: ScanResult)
        ensures
            r.wf(),
            unique_paths(entries@) ==> r.view() == entries@,
    {
        let mut rest: Vec<ScanEntry> = entries;
        let ghost all = rest@;
        let n: usize = rest.len();
        let mut pending: Vec<ScanEntry> = Vec::new();
        while rest.len() > 0
            invariant
                n == all.len(),
                rest@ == all.subrange(0, rest@.len() as int),
                pending@.len() == n - rest@.len(),
                forall|j: int| 0 <= j < pending@.len() ==> #[trigger] pending@[j] == all[n - 1 - j],
            decreases rest@.len(),
        {
            let e = rest.pop().unwrap();
            pending.push(e);
            assert(rest@ =~= all.subrange(0, rest@.len() as int));
        }
        let mut result = ScanResult::new();
        while pending.len() > 0
            invariant
                n == all.len(),
                pending@.len() <= n,
                forall|j: int| 0 <= j < pending@.len() ==> #[trigger] pending@[j] == all[n - 1 - j],
                result.wf(),
                unique_paths(all) ==> result.view() == all.subrange(0, n - pending@.len()),
            decreases pending@.len(),
        {
            let ghost k: int = n - pending@.len();
            let e = pending.pop().unwrap();
            assert(e == all[k]);
            let ScanEntry { path, colors } = e;
            proof {
                if unique_paths(all) {
                    assert forall|i: int| 0 <= i < result.view().len() implies (#[trigger] result.view()[i]).path@
                        != path@ by {
                        assert(result.view()[i] == all[i]);
                    }
                }
            }
            result.insert(path, colors);
            proof {
                if unique_paths(all) {
                    assert(all.subrange(0, k + 1) =~= all.subrange(0, k).push(all[k]));
                }
            }
        }
        assert(all.subrange(0, n as int) =~= all);
        result
    }

    /// The entries sorted by path, for a display that does not depend on the
    /// order in which the workers finished.
    pub fn into_sorted(self) -> (r: Vec<ScanEntry>)
        ensures
            r@ == sort_by_path_spec(self.view()),
    {
        let mut rest: Vec<ScanEntry> = self.entries;
        let ghost all = rest@;
        let n: usize = rest.len();
        let mut pending: Vec<ScanEntry> = Vec::new();
        while rest.len() > 0
            invariant
                n == all.len(),
                rest@ == all.subrange(0, rest@.len() as int),
                pending@.len() == n - rest@.len(),
                forall|j: int| 0 <= j < pending@.len() ==> #[trigger] pending@[j] == all[n - 1 - j],
            decreases rest@.len(),
        {
            let e = rest.pop().unwrap();
            pending.push(e);
            assert(rest@ =~= all.subrange(0, rest@.len() as int));
        }
        let mut out: Vec<ScanEntry> = Vec::new();
        assert(all.subrange(0, 0) =~= Seq::<ScanEntry>::empty());
        while pending.len() > 0
            invariant
                n == all.len(),
                pending@.len() <= n,
                forall|j: int| 0 <= j < pending@.len() ==> #[trigger] pending@[j] == all[n - 1 - j],
                out@ == sort_by_path_spec(all.subrange(0, n - pending@.len())),
            decreases pending@.len(),
        {
            let ghost k: int = n - pending@.len();
            let e = pending.pop().unwrap();
            assert(e == all[k]);
            let mut p: usize = 0;
            while p < out.len() && path_less_eq(&out[p].path, &e.path)
                invariant
                    p <= out@.len(),
                    forall|j: int| 0 <= j < p ==> path_le((#[trigger] out@[j]).path@, e.path@),
                decreases out@.len() - p,
            {
                p = p + 1;
            }
            proof {
                lemma_insert_by_path_at(out@, e, p as int);
                assert(all.subrange(0, k + 1).drop_last() =~= all.subrange(0, k));
                assert(all.subrange(0, k + 1).last() == all[k]);
            }
            out.insert(p, e);
        }
        assert(all.subrange(0, n as int) =~= all);
        out
    }
}

} // verus!
