//! Scanning the music folders: which files count, which of them have to be read again, what is told
//! about the progress, and which tracks have gone.

use crate::models::{LibraryUpdatedPayload, ScanProgressPayload, ScanStage};
use crate::text::{
    chars_of, is_separator, lower_of, opt_clone, opt_view, separates, starts_with, starts_with_seq,
    str_eq, string_of, to_lower,
};
use vstd::hash_map::StringHashMap;
use vstd::hash_set::StringHashSet;
use vstd::prelude::*;
use vstd::string::StringExecFns;

verus! {

/// The least time between two progress events while files are being read, in milliseconds.
pub const PROGRESS_EMIT_MS: i64 = 100;

/// While tracks are being stored, every so many files are reported.
pub const STORE_EMIT_FILES: u64 = 25;

/// At most one scan runs at a time. A request that comes while one runs is merged with it.
#[derive(Debug, Clone, Copy, PartialEq, Eq, Structural)]
pub struct ScanControl {
    pub running: bool,
    pub pending: bool,
    pub cancel: bool,
}

impl Default for ScanControl {
    fn default() -> (r: Self)
        ensures
            r == (ScanControl { running: false, pending: false, cancel: false }),
    {
        ScanControl { running: false, pending: false, cancel: false }
    }
}

impl ScanControl {
    /// Whether a request leads from one state to another, and says whether a scan starts.
    pub open spec fn asked(self, now: ScanControl, start: bool) -> bool {
        &&& start == !self.running
        &&& now == (ScanControl {
            running: true,
            pending: self.pending || self.running,
            ..self
        })
    }

    /// Asks for a scan; says whether one has to be started.
    pub fn request(&mut self) -> (start: bool)
        ensures
            old(self).asked(*final(self), start),
    {
        if self.running {
            self.pending = true;
            return false;
        }
        self.running = true;
        true
    }

    /// Whether the beginning of a scan leads from one state to another.
    pub open spec fn began(self, now: ScanControl) -> bool {
        now == (ScanControl { cancel: false, ..self })
    }

    /// A scan begins: a cancellation that came before it does not count.
    pub fn begin(&mut self)
        ensures
            old(self).began(*final(self)),
    {
        self.cancel = false;
    }

    /// Whether a cancellation leads from one state to another.
    pub open spec fn cancelled(self, now: ScanControl) -> bool {
        now == (ScanControl { cancel: true, ..self })
    }

    pub fn cancel(&mut self)
        ensures
            old(self).cancelled(*final(self)),
    {
        self.cancel = true;
    }

    pub fn is_running(&self) -> (r: bool)
        ensures
            r == self.running,
    {
        self.running
    }

    /// Whether the end of a scan leads from one state to another.
    pub open spec fn ended(self, now: ScanControl) -> bool {
        now == (ScanControl { running: false, pending: false, ..self })
    }

    /// A scan has ended, however it went.
    pub fn mark_done(&mut self)
        ensures
            old(self).ended(*final(self)),
    {
        self.running = false;
        self.pending = false;
    }
}

/// The extensions of the files that the library takes, in lower case.
pub open spec fn supported_extensions() -> Seq<Seq<char>> {
    seq![
        "mp3"@,
        "flac"@,
        "wav"@,
        "ogg"@,
        "oga"@,
        "m4a"@,
        "m4b"@,
        "aac"@,
        "opus"@,
        "alac"@,
        "aiff"@,
        "caf"@,
        "dsf"@,
        "dff"@,
    ]
}

/// Whether the library takes files of this extension, in whatever case it is written.
pub fn is_supported(ext: &str) -> (r: bool)
    ensures
        r == supported_extensions().contains(lower_of(ext@)),
{
    let cs = chars_of(ext);
    let low = string_of(to_lower(cs.as_slice()).as_slice());
    let e = low.as_str();
    let r = str_eq(e, "mp3") || str_eq(e, "flac") || str_eq(e, "wav") || str_eq(e, "ogg") || str_eq(
        e,
        "oga",
    ) || str_eq(e, "m4a") || str_eq(e, "m4b") || str_eq(e, "aac") || str_eq(e, "opus") || str_eq(
        e,
        "alac",
    ) || str_eq(e, "aiff") || str_eq(e, "caf") || str_eq(e, "dsf") || str_eq(e, "dff");
    proof {
        let all = supported_extensions();
        assert(all[0] == "mp3"@ && all[1] == "flac"@ && all[2] == "wav"@ && all[3] == "ogg"@);
        assert(all[4] == "oga"@ && all[5] == "m4a"@ && all[6] == "m4b"@ && all[7] == "aac"@);
        assert(all[8] == "opus"@ && all[9] == "alac"@ && all[10] == "aiff"@ && all[11] == "caf"@);
        assert(all[12] == "dsf"@ && all[13] == "dff"@);
        if all.contains(e@) {
            let k = choose|k: int| 0 <= k < all.len() && all[k] == e@;
            assert(0 <= k < 14);
        }
    }
    r
}

/// Whether an extension is that of a DSD container.
pub open spec fn names_dsd(ext: Seq<char>) -> bool {
    lower_of(ext) == "dsf"@ || lower_of(ext) == "dff"@
}

/// Whether an extension is that of a DSD container, in whatever case it is written.
pub fn is_dsd_ext(ext: &str) -> (r: bool)
    ensures
        r == names_dsd(ext@),
{
    let cs = chars_of(ext);
    let low = string_of(to_lower(cs.as_slice()).as_slice());
    str_eq(low.as_str(), "dsf") || str_eq(low.as_str(), "dff")
}

/// When a file was written and how long it is.
#[derive(Debug, Clone, Copy, PartialEq, Eq, Structural)]
pub struct Stamp {
    /// In seconds; 0 or less where it could not be read.
    pub mtime: i64,
    pub size: i64,
}

/// A file found on disk.
#[derive(Debug, Clone, PartialEq)]
pub struct FoundFile {
    pub path: String,
    pub stamp: Stamp,
}

/// The files that the library knows, by path.
pub struct KnownFiles {
    pub stamps: StringHashMap<Stamp>,
}

impl KnownFiles {
    pub fn new() -> (r: Self)
        ensures
            r.stamps@ == Map::<Seq<char>, Stamp>::empty(),
    {
        KnownFiles { stamps: StringHashMap::new() }
    }

    /// Records a file; a later record of the same path takes the place of an earlier one.
    pub fn insert(&mut self, path: String, stamp: Stamp)
        ensures
            final(self).stamps@ == old(self).stamps@.insert(path@, stamp),
    {
        self.stamps.insert(path, stamp);
    }
}

/// Whether a file has to be read again: unless both its time and its length are those on record. A
/// file whose time could not be read is always read again.
pub open spec fn reparse(known: Map<Seq<char>, Stamp>, path: Seq<char>, stamp: Stamp) -> bool {
    stamp.mtime <= 0 || !known.contains_key(path) || known[path] != stamp
}

/// Whether a file has to be read again.
pub fn needs_reparse(known: &KnownFiles, path: &str, mtime: i64, size: i64) -> (r: bool)
    ensures
        r == reparse(known.stamps@, path@, Stamp { mtime, size }),
{
    if mtime <= 0 {
        return true;
    }
    match known.stamps.get(path) {
        Some(s) => s.mtime != mtime || s.size != size,
        None => true,
    }
}

/// Which of the files have to be read, by their places in the list.
pub open spec fn to_read(known: Map<Seq<char>, Stamp>, files: Seq<FoundFile>, upto: int) -> Seq<usize>
    decreases upto,
{
    if upto <= 0 {
        Seq::empty()
    } else {
        let head = to_read(known, files, upto - 1);
        if reparse(known, files[upto - 1].path@, files[upto - 1].stamp) {
            head.push((upto - 1) as usize)
        } else {
            head
        }
    }
}

/// The paths of the files.
pub open spec fn paths_of(files: Seq<FoundFile>) -> Set<Seq<char>> {
    files.map_values(|f: FoundFile| f.path@).to_set()
}

/// The files on disk, held against those on record.
pub struct Diff {
    /// The places of the files that have to be read, in the order of the list.
    pub to_parse: Vec<usize>,
    /// How many files are unchanged.
    pub skipped: u64,
    /// Every path that was found.
    pub seen: StringHashSet,
}

/// Holds the files on disk against those on record.
pub fn diff_files(known: &KnownFiles, files: &[FoundFile]) -> (r: Diff)
    ensures
        r.to_parse@ == to_read(known.stamps@, files@, files@.len() as int),
        r.skipped + r.to_parse@.len() == files@.len(),
        r.seen@ == paths_of(files@),
{
    let mut to_parse: Vec<usize> = Vec::new();
    let mut skipped: u64 = 0;
    let mut seen = StringHashSet::new();
    let n: usize = files.len();
    let mut i: usize = 0;
    proof {
        assert(paths_of(files@.take(0)) =~= Set::<Seq<char>>::empty());
    }
    while i < n
        invariant
            n == files@.len(),
            i <= n,
            to_parse@ == to_read(known.stamps@, files@, i as int),
            skipped + to_parse@.len() == i,
            seen@ == paths_of(files@.take(i as int)),
        decreases n - i,
    {
        let f = &files[i];
        proof {
            lemma_paths_push(files@, i as int);
        }
        seen.insert(f.path.clone());
        if needs_reparse(known, f.path.as_str(), f.stamp.mtime, f.stamp.size) {
            to_parse.push(i);
        } else {
            skipped = skipped + 1;
        }
        i = i + 1;
    }
    proof {
        assert(files@.take(n as int) =~= files@);
    }
    Diff { to_parse, skipped, seen }
}

proof fn lemma_paths_push(files: Seq<FoundFile>, i: int)
    requires
        0 <= i < files.len(),
    ensures
        paths_of(files.take(i + 1)) == paths_of(files.take(i)).insert(files[i].path@),
{
    let f = |f: FoundFile| f.path@;
    let a = files.take(i).map_values(f);
    let b = files.take(i + 1).map_values(f);
    assert(b =~= a.push(files[i].path@));
    assert forall|x: Seq<char>| b.to_set().contains(x) == a.to_set().insert(
        files[i].path@,
    ).contains(x) by {
        if b.contains(x) {
            let k = choose|k: int| 0 <= k < b.len() && b[k] == x;
            if k < a.len() {
                assert(a[k] == x);
            }
        }
        if a.contains(x) {
            let k = choose|k: int| 0 <= k < a.len() && a[k] == x;
            assert(b[k] == x);
        }
        assert(b[i] == files[i].path@);
    }
    assert(b.to_set() =~= a.to_set().insert(files[i].path@));
}

/// Whether a path is a folder or lies inside it: it begins like the folder, and what follows begins
/// a new part of the path.
pub open spec fn lies_in(path: Seq<char>, root: Seq<char>) -> bool {
    &&& starts_with_seq(path, root)
    &&& path.len() == root.len() || is_separator(path[root.len() as int]) || (root.len() > 0
        && is_separator(root.last()))
}

/// Whether a path lies in one of the folders.
pub open spec fn under_root(path: Seq<char>, roots: Seq<String>) -> bool {
    exists|i: int| 0 <= i < roots.len() && lies_in(path, #[trigger] roots[i]@)
}

/// Whether a track on record has gone: it lies in one of the folders, and its file was not found.
pub open spec fn gone(path: Seq<char>, roots: Seq<String>, seen: Set<Seq<char>>) -> bool {
    under_root(path, roots) && !seen.contains(path)
}

/// Whether a path is a folder or lies inside it.
fn is_inside(path: &[char], root: &[char]) -> (r: bool)
    ensures
        r == lies_in(path@, root@),
{
    if !starts_with(path, root) {
        return false;
    }
    let n: usize = root.len();
    path.len() == n || separates(path[n]) || (n > 0 && separates(root[n - 1]))
}

/// Whether a track on record has gone.
pub fn is_gone(path: &str, roots: &[String], seen: &StringHashSet) -> (r: bool)
    ensures
        r == gone(path@, roots@, seen@),
{
    if seen.contains(path) {
        return false;
    }
    let cs = chars_of(path);
    let mut i: usize = 0;
    while i < roots.len()
        invariant
            i <= roots@.len(),
            cs@ == path@,
            !seen@.contains(path@),
            forall|j: int| 0 <= j < i ==> !lies_in(path@, #[trigger] roots@[j]@),
        decreases roots@.len() - i,
    {
        let root = chars_of(roots[i].as_str());
        if is_inside(cs.as_slice(), root.as_slice()) {
            return true;
        }
        i = i + 1;
    }
    false
}

/// A track whose file is on disk is never removed.
pub proof fn law_present_tracks_stay(path: Seq<char>, roots: Seq<String>, files: Seq<FoundFile>, i: int)
    requires
        0 <= i < files.len(),
        files[i].path@ == path,
    ensures
        !gone(path, roots, paths_of(files)),
{
    let m = files.map_values(|f: FoundFile| f.path@);
    assert(m[i] == path);
}

/// A track outside the folders is never removed, whatever was found.
pub proof fn law_tracks_elsewhere_stay(path: Seq<char>, roots: Seq<String>, seen: Set<Seq<char>>)
    requires
        forall|i: int| 0 <= i < roots.len() ==> !lies_in(path, #[trigger] roots[i]@),
    ensures
        !gone(path, roots, seen),
{
}

/// A folder whose name merely begins like that of another one does not lie in it, nor does anything
/// inside it; what stands behind a separator does.
pub proof fn law_sibling_folders_are_apart(root: Seq<char>, c: char, tail: Seq<char>)
    requires
        root.len() > 0,
        !is_separator(root.last()),
    ensures
        lies_in(root.push(c) + tail, root) <==> is_separator(c),
        lies_in(root, root),
{
    let path = root.push(c) + tail;
    assert(path.subrange(0, root.len() as int) =~= root);
    assert(path[root.len() as int] == c);
    assert(root.subrange(0, root.len() as int) =~= root);
}

/// A file whose time and size are those on record is not read again, and any other one is.
pub proof fn law_only_changed_files_are_read(
    known: Map<Seq<char>, Stamp>,
    files: Seq<FoundFile>,
    n: int,
    i: usize,
)
    requires
        0 <= n <= files.len() <= usize::MAX,
        i < n,
    ensures
        to_read(known, files, n).contains(i) <==> !(files[i as int].stamp.mtime > 0
            && known.contains_key(files[i as int].path@) && known[files[i as int].path@]
            == files[i as int].stamp),
    decreases n,
{
    lemma_read_are_before(known, files, n - 1);
    let head = to_read(known, files, n - 1);
    if reparse(known, files[n - 1].path@, files[n - 1].stamp) {
        let all = head.push((n - 1) as usize);
        assert(all[head.len() as int] == n - 1);
        assert forall|x: usize| head.contains(x) implies all.contains(x) by {
            let k = head.index_of(x);
            assert(all[k] == x);
        }
        assert forall|x: usize| all.contains(x) && x != n - 1 implies head.contains(x) by {
            let k = all.index_of(x);
            assert(head[k] == x);
        }
    }
    if i < n - 1 {
        law_only_changed_files_are_read(known, files, n - 1, i);
    }
}

proof fn lemma_read_are_before(known: Map<Seq<char>, Stamp>, files: Seq<FoundFile>, n: int)
    requires
        n <= files.len() <= usize::MAX,
    ensures
        forall|k: int|
            0 <= k < to_read(known, files, n).len() ==> (#[trigger] to_read(known, files, n)[k]) < n,
    decreases n,
{
    if n > 0 {
        lemma_read_are_before(known, files, n - 1);
        let head = to_read(known, files, n - 1);
        assert forall|k: int| 0 <= k < to_read(known, files, n).len() implies (
        #[trigger] to_read(known, files, n)[k]) < n by {
            if k < head.len() {
                assert(to_read(known, files, n)[k] == head[k]);
            }
        }
    }
}

/// With nothing on record every file is read.
pub proof fn law_unknown_files_are_read(files: Seq<FoundFile>, n: int)
    requires
        0 <= n <= files.len(),
        files.len() <= usize::MAX,
    ensures
        to_read(Map::empty(), files, n) =~= Seq::new(n as nat, |i: int| i as usize),
    decreases n,
{
    if n > 0 {
        law_unknown_files_are_read(files, n - 1);
    }
}

/// How far a scan has come.
#[derive(Debug, Clone, Copy, PartialEq, Eq, Structural)]
pub enum Phase {
    /// The folders are being asked for.
    Roots,
    /// The folders are being walked.
    Walk,
    /// The database is being opened.
    Open,
    /// The files are being held against the record.
    Diff,
    /// The files are being read.
    Parse,
    /// A transaction is being opened.
    Begin,
    /// The tracks are being stored.
    Store,
    /// Tracks that have gone are being removed.
    Clean,
    /// The scan is over.
    Over,
}

/// A scan: what it knows and what it last told.
#[derive(Debug)]
pub struct Scan {
    pub phase: Phase,
    pub payload: ScanProgressPayload,
    pub roots: Vec<String>,
    /// How many files were found.
    pub files_on_disk: u64,
    /// How many of them are unchanged.
    pub done_base: u64,
    /// How many tracks have been offered to the database.
    pub stored: u64,
    /// Whether storing was cut short.
    pub cut_short: bool,
    /// Whether the scan came to its regular end.
    pub completed: bool,
}

/// The text of an error while a track is stored.
pub open spec fn store_error(path: Seq<char>, error: Seq<char>) -> Seq<char> {
    "写入失败 "@ + path + ": "@ + error
}

impl Scan {
    /// What holds of the numbers of a scan.
    pub open spec fn sane(&self) -> bool {
        &&& self.done_base <= self.files_on_disk
        &&& self.payload.added + self.payload.updated <= self.stored
        &&& self.payload.scanned_files <= self.files_on_disk
        &&& self.stored + self.done_base <= self.files_on_disk
    }

    /// A scan that has just been asked for.
    pub fn start() -> (r: Self)
        ensures
            r.sane(),
            r.phase == Phase::Roots,
            r.payload == (ScanProgressPayload {
                stage: ScanStage::Started,
                root: None,
                scanned_files: 0,
                total_files: None,
                current_path: None,
                added: 0,
                updated: 0,
                removed: 0,
                error: None,
            }),
            r.roots@.len() == 0,
            r.files_on_disk == 0,
            r.done_base == 0,
            r.stored == 0,
            !r.cut_short,
            !r.completed,
    {
        Scan {
            phase: Phase::Roots,
            payload: ScanProgressPayload {
                stage: ScanStage::Started,
                root: None,
                scanned_files: 0,
                total_files: None,
                current_path: None,
                added: 0,
                updated: 0,
                removed: 0,
                error: None,
            },
            roots: Vec::new(),
            files_on_disk: 0,
            done_base: 0,
            stored: 0,
            cut_short: false,
            completed: false,
        }
    }

    fn end(&mut self, stage: ScanStage)
        ensures
            *final(self) == (Scan {
                phase: Phase::Over,
                payload: ScanProgressPayload { stage, ..old(self).payload },
                ..*old(self)
            }),
    {
        self.payload.stage = stage;
        self.phase = Phase::Over;
    }

    /// Whether the answer to the question for the folders leads from one state to another.
    pub open spec fn after_roots(self, roots: Result<Vec<String>, String>, now: Scan) -> bool {
        match roots {
            Ok(v) => if v@.len() == 0 {
                now == (Scan {
                    phase: Phase::Over,
                    payload: ScanProgressPayload {
                        stage: ScanStage::Done,
                        ..self.payload
                    },
                    ..self
                })
            } else {
                now == (Scan { phase: Phase::Walk, roots: v, ..self })
            },
            Err(e) => now == (Scan {
                phase: Phase::Over,
                payload: ScanProgressPayload {
                    stage: ScanStage::Error,
                    error: Some(e),
                    ..self.payload
                },
                ..self
            }),
        }
    }

    /// The folders are known, or could not be asked for. Without folders there is nothing to do.
    pub fn roots_listed(&mut self, roots: Result<Vec<String>, String>)
        requires
            old(self).phase == Phase::Roots,
            old(self).sane(),
        ensures
            final(self).sane(),
            old(self).after_roots(roots, *final(self)),
    {
        match roots {
            Ok(v) => {
                if v.len() == 0 {
                    self.end(ScanStage::Done);
                } else {
                    self.roots = v;
                    self.phase = Phase::Walk;
                }
            },
            Err(e) => {
                self.payload.error = Some(e);
                self.end(ScanStage::Error);
            },
        }
    }

    /// Whether the walk of a folder leads from one state to another.
    pub open spec fn in_root(self, i: usize, now: Scan) -> bool {
        now == (Scan {
            payload: ScanProgressPayload {
                root: Some(self.roots@[i as int]),
                ..self.payload
            },
            ..self
        })
    }

    /// A folder is being walked.
    pub fn enter_root(&mut self, i: usize)
        requires
            old(self).phase == Phase::Walk,
            old(self).sane(),
            i < old(self).roots@.len(),
        ensures
            final(self).sane(),
            old(self).in_root(i, *final(self)),
    {
        self.payload.root = Some(self.roots[i].clone());
    }

    /// Whether the end of the walk leads from one state to another.
    pub open spec fn after_walk(self, files: u64, cancelled: bool, now: Scan) -> bool {
        now == (if cancelled {
            Scan {
                phase: Phase::Over,
                payload: ScanProgressPayload {
                    stage: ScanStage::Cancelled,
                    ..self.payload
                },
                files_on_disk: files,
                ..self
            }
        } else {
            Scan {
                phase: Phase::Open,
                payload: ScanProgressPayload {
                    stage: ScanStage::Scanning,
                    total_files: Some(files),
                    ..self.payload
                },
                files_on_disk: files,
                ..self
            }
        })
    }

    /// The folders have been walked, or the walk was cancelled.
    pub fn walked(&mut self, files: u64, cancelled: bool)
        requires
            old(self).phase == Phase::Walk,
            old(self).sane(),
            old(self).files_on_disk == 0,
        ensures
            final(self).sane(),
            old(self).after_walk(files, cancelled, *final(self)),
    {
        self.files_on_disk = files;
        if cancelled {
            self.end(ScanStage::Cancelled);
        } else {
            self.payload.stage = ScanStage::Scanning;
            self.payload.total_files = Some(files);
            self.phase = Phase::Open;
        }
    }

    /// Whether the opening of the database leads from one state to another.
    pub open spec fn after_open(self, error: Option<String>, now: Scan) -> bool {
        now == (if error is Some {
            Scan {
                phase: Phase::Over,
                payload: ScanProgressPayload {
                    stage: ScanStage::Error,
                    error,
                    ..self.payload
                },
                ..self
            }
        } else {
            Scan { phase: Phase::Diff, ..self }
        })
    }

    /// The database is open, or could not be opened.
    pub fn opened(&mut self, error: Option<String>)
        requires
            old(self).phase == Phase::Open,
            old(self).sane(),
        ensures
            final(self).sane(),
            old(self).after_open(error, *final(self)),
    {
        if error.is_some() {
            self.payload.error = error;
            self.end(ScanStage::Error);
        } else {
            self.phase = Phase::Diff;
        }
    }

    /// Whether the look at the record leads from one state to another.
    pub open spec fn after_diff(self, skipped: u64, now: Scan) -> bool {
        now == (Scan {
            phase: Phase::Parse,
            payload: ScanProgressPayload { scanned_files: skipped, ..self.payload },
            done_base: skipped,
            ..self
        })
    }

    /// The unchanged files are known; they count as done.
    pub fn diffed(&mut self, skipped: u64)
        requires
            old(self).phase == Phase::Diff,
            old(self).sane(),
            old(self).stored == 0,
            skipped <= old(self).files_on_disk,
        ensures
            final(self).sane(),
            old(self).after_diff(skipped, *final(self)),
    {
        self.done_base = skipped;
        self.payload.scanned_files = skipped;
        self.phase = Phase::Parse;
    }

    /// Whether enough time has passed since the last report.
    pub open spec fn is_time(now_ms: int, last_ms: int) -> bool {
        now_ms - last_ms >= PROGRESS_EMIT_MS
    }

    /// Whether the reading of a file may be reported, given when one was reported last.
    pub fn may_report(now_ms: i64, last_ms: i64) -> (r: bool)
        ensures
            r == Scan::is_time(now_ms as int, last_ms as int),
    {
        now_ms as i128 - last_ms as i128 >= PROGRESS_EMIT_MS as i128
    }

    /// What is told of the reading of a file.
    pub open spec fn reading(self, read: u64, path: String) -> ScanProgressPayload {
        ScanProgressPayload {
            stage: ScanStage::Scanning,
            root: if self.roots@.len() > 0 {
                Some(self.roots@[0])
            } else {
                None
            },
            scanned_files: (self.done_base + read) as u64,
            total_files: Some(self.files_on_disk),
            current_path: Some(path),
            added: 0,
            updated: 0,
            removed: 0,
            error: None,
        }
    }

    /// The report on the reading of a file, when `read` files have been read.
    pub fn parse_report(&self, read: u64, path: String) -> (r: ScanProgressPayload)
        requires
            self.done_base + read <= u64::MAX,
        ensures
            r == self.reading(read, path),
    {
        let root = if self.roots.len() > 0 {
            Some(self.roots[0].clone())
        } else {
            None
        };
        ScanProgressPayload {
            stage: ScanStage::Scanning,
            root,
            scanned_files: self.done_base + read,
            total_files: Some(self.files_on_disk),
            current_path: Some(path),
            added: 0,
            updated: 0,
            removed: 0,
            error: None,
        }
    }

    /// Whether the end of the reading leads from one state to another.
    pub open spec fn after_parse(self, cancelled: bool, now: Scan) -> bool {
        now == (if cancelled {
            Scan {
                phase: Phase::Over,
                payload: ScanProgressPayload {
                    stage: ScanStage::Cancelled,
                    ..self.payload
                },
                ..self
            }
        } else {
            Scan { phase: Phase::Begin, ..self }
        })
    }

    /// The files have been read, or the reading was cancelled.
    pub fn parsed(&mut self, cancelled: bool)
        requires
            old(self).phase == Phase::Parse,
            old(self).sane(),
        ensures
            final(self).sane(),
            old(self).after_parse(cancelled, *final(self)),
    {
        if cancelled {
            self.end(ScanStage::Cancelled);
        } else {
            self.phase = Phase::Begin;
        }
    }

    /// Whether the opening of the transaction leads from one state to another.
    pub open spec fn after_begin(self, error: Option<&str>, now: Scan) -> bool {
        match error {
            None => now == (Scan { phase: Phase::Store, ..self }),
            Some(e) => {
                &&& now == (Scan {
                    phase: Phase::Over,
                    payload: ScanProgressPayload {
                        stage: ScanStage::Error,
                        error: now.payload.error,
                        ..self.payload
                    },
                    ..self
                })
                &&& opt_view(now.payload.error) == Some("开启写入事务失败: "@ + e@)
            },
        }
    }

    /// The transaction is open, or could not be opened.
    pub fn begun(&mut self, error: Option<&str>)
        requires
            old(self).phase == Phase::Begin,
            old(self).sane(),
        ensures
            final(self).sane(),
            old(self).after_begin(error, *final(self)),
    {
        match error {
            None => {
                self.phase = Phase::Store;
            },
            Some(e) => {
                self.payload.error = Some("开启写入事务失败: ".to_owned().concat(e));
                self.end(ScanStage::Error);
            },
        }
    }

    /// Whether a track that was offered to the database leads from one state to another, and whether
    /// that is told.
    pub open spec fn after_track(
        self,
        path: Seq<char>,
        outcome: Result<bool, String>,
        now: Scan,
        report: bool,
    ) -> bool {
        let scanned = if self.done_base + self.stored + 1
            > self.payload.scanned_files {
            (self.done_base + self.stored + 1) as u64
        } else {
            self.payload.scanned_files
        };
        &&& report == (scanned % STORE_EMIT_FILES == 0)
        &&& now == (Scan {
            stored: (self.stored + 1) as u64,
            payload: ScanProgressPayload {
                scanned_files: scanned,
                added: if outcome == Ok::<bool, String>(false) {
                    (self.payload.added + 1) as u64
                } else {
                    self.payload.added
                },
                updated: if outcome == Ok::<bool, String>(true) {
                    (self.payload.updated + 1) as u64
                } else {
                    self.payload.updated
                },
                error: now.payload.error,
                ..self.payload
            },
            ..self
        })
        &&& match outcome {
            Ok(_) => now.payload.error == self.payload.error,
            Err(e) => opt_view(now.payload.error) == Some(store_error(path, e@)),
        }
    }

    /// One track has been offered to the database: `Ok` says whether it was there before. The
    /// result says whether the progress is to be told.
    pub fn track_stored(&mut self, path: &str, outcome: Result<bool, String>) -> (report: bool)
        requires
            old(self).phase == Phase::Store,
            old(self).sane(),
            old(self).done_base + old(self).stored < old(self).files_on_disk,
        ensures
            final(self).sane(),
            old(self).after_track(path@, outcome, *final(self), report),
    {
        match outcome {
            Ok(existed) => {
                if existed {
                    self.payload.updated = self.payload.updated + 1;
                } else {
                    self.payload.added = self.payload.added + 1;
                }
            },
            Err(e) => {
                self.payload.error = Some(
                    "写入失败 ".to_owned().concat(path).concat(": ").concat(e.as_str()),
                );
            },
        }
        let done: u64 = self.done_base + self.stored + 1;
        if done > self.payload.scanned_files {
            self.payload.scanned_files = done;
        }
        self.stored = self.stored + 1;
        self.payload.scanned_files % STORE_EMIT_FILES == 0
    }

    /// Whether cutting the storing short leads from one state to another.
    pub open spec fn after_cut(self, now: Scan) -> bool {
        now == (Scan { cut_short: true, ..self })
    }

    /// Storing is cut short. What has been stored stays.
    pub fn cut(&mut self)
        requires
            old(self).phase == Phase::Store,
            old(self).sane(),
        ensures
            final(self).sane(),
            old(self).after_cut(*final(self)),
    {
        self.cut_short = true;
    }

    /// Whether the end of the storing leads from one state to another.
    pub open spec fn after_commit(self, error: Option<&str>, now: Scan) -> bool {
        &&& now == (Scan {
            phase: if self.cut_short {
                Phase::Over
            } else {
                Phase::Clean
            },
            payload: ScanProgressPayload {
                stage: if self.cut_short {
                    ScanStage::Cancelled
                } else {
                    self.payload.stage
                },
                error: now.payload.error,
                ..self.payload
            },
            ..self
        })
        &&& match error {
            None => now.payload.error == self.payload.error,
            Some(e) => opt_view(now.payload.error) == Some("提交写入失败: "@ + e@),
        }
    }

    /// The transaction has been committed, or could not be.
    pub fn committed(&mut self, error: Option<&str>)
        requires
            old(self).phase == Phase::Store,
            old(self).sane(),
        ensures
            final(self).sane(),
            old(self).after_commit(error, *final(self)),
    {
        if let Some(e) = error {
            self.payload.error = Some("提交写入失败: ".to_owned().concat(e));
        }
        if self.cut_short {
            self.end(ScanStage::Cancelled);
        } else {
            self.phase = Phase::Clean;
        }
    }

    /// Whether the removal of a track leads from one state to another.
    pub open spec fn after_removal(self, now: Scan) -> bool {
        now == (Scan {
            payload: ScanProgressPayload {
                removed: (self.payload.removed + 1) as u64,
                ..self.payload
            },
            ..self
        })
    }

    /// A track that has gone was removed.
    pub fn track_removed(&mut self)
        requires
            old(self).phase == Phase::Clean,
            old(self).sane(),
            old(self).payload.removed < u64::MAX,
        ensures
            final(self).sane(),
            old(self).after_removal(*final(self)),
    {
        self.payload.removed = self.payload.removed + 1;
    }

    /// Whether the regular end leads from one state to another, and what the library is told.
    pub open spec fn after_end(self, total_tracks: i64, now: Scan, r: LibraryUpdatedPayload) -> bool {
        &&& now == (Scan {
            phase: Phase::Over,
            payload: ScanProgressPayload { stage: ScanStage::Done, ..self.payload },
            completed: true,
            ..self
        })
        &&& r == (LibraryUpdatedPayload {
            added: self.payload.added,
            updated: self.payload.updated,
            removed: self.payload.removed,
            total_tracks,
        })
    }

    /// The scan comes to its regular end; the result is what the library is told.
    pub fn finish(&mut self, total_tracks: i64) -> (r: LibraryUpdatedPayload)
        requires
            old(self).phase == Phase::Clean,
            old(self).sane(),
        ensures
            final(self).sane(),
            old(self).after_end(total_tracks, *final(self), r),
    {
        self.completed = true;
        self.end(ScanStage::Done);
        LibraryUpdatedPayload {
            added: self.payload.added,
            updated: self.payload.updated,
            removed: self.payload.removed,
            total_tracks,
        }
    }

    /// A copy of what is to be told.
    pub fn report(&self) -> (r: ScanProgressPayload)
        ensures
            r == self.payload,
    {
        ScanProgressPayload {
            stage: self.payload.stage,
            root: opt_clone(&self.payload.root),
            scanned_files: self.payload.scanned_files,
            total_files: self.payload.total_files,
            current_path: opt_clone(&self.payload.current_path),
            added: self.payload.added,
            updated: self.payload.updated,
            removed: self.payload.removed,
            error: opt_clone(&self.payload.error),
        }
    }
}

/// One scan runs at a time: a request starts one only where none runs, and is remembered where one
/// does; after the end a request starts one again.
pub proof fn law_one_scan_at_a_time(a: ScanControl, b: ScanControl, c: ScanControl, first: bool, second: bool)
    requires
        a.asked(b, first),
        b.asked(c, second),
    ensures
        first == !a.running,
        !second,
        b.running && c.running,
        c.pending,
        first ==> b.pending == a.pending,
        b.cancel == a.cancel,
{
}

/// After the end of a scan nothing runs and nothing waits; a cancellation lasts until the next
/// beginning.
pub proof fn law_scan_ends(a: ScanControl, b: ScanControl, c: ScanControl, d: ScanControl)
    requires
        a.cancelled(b),
        b.ended(c),
        c.began(d),
    ensures
        b.cancel && b.running == a.running && b.pending == a.pending,
        !c.running && !c.pending && c.cancel,
        !d.cancel && !d.running && !d.pending,
{
}

/// The files that are taken, by the letters of their extensions.
pub proof fn law_supported(ext: Seq<char>)
    ensures
        supported_extensions().contains(ext) <==> ext == "mp3"@ || ext == "flac"@ || ext == "wav"@ || ext
            == "ogg"@ || ext == "oga"@ || ext == "m4a"@ || ext == "m4b"@ || ext == "aac"@ || ext
            == "opus"@ || ext == "alac"@ || ext == "aiff"@ || ext == "caf"@ || ext == "dsf"@ || ext
            == "dff"@,
        names_dsd(ext) ==> supported_extensions().contains(lower_of(ext)),
        ext == "dsf"@ || ext == "DSF"@ || ext == "dff"@ || ext == "DFF"@ ==> names_dsd(ext),
{
    let all = supported_extensions();
    assert(all[0] == "mp3"@ && all[1] == "flac"@ && all[2] == "wav"@ && all[3] == "ogg"@);
    assert(all[4] == "oga"@ && all[5] == "m4a"@ && all[6] == "m4b"@ && all[7] == "aac"@);
    assert(all[8] == "opus"@ && all[9] == "alac"@ && all[10] == "aiff"@ && all[11] == "caf"@);
    assert(all[12] == "dsf"@ && all[13] == "dff"@);
    reveal_strlit("dsf");
    reveal_strlit("dff");
    reveal_strlit("DSF");
    reveal_strlit("DFF");
    assert(lower_of("dsf"@) =~= "dsf"@);
    assert(lower_of("dff"@) =~= "dff"@);
    assert(lower_of("DSF"@) =~= "dsf"@);
    assert(lower_of("DFF"@) =~= "dff"@);
}

/// A file is read again when its time or its length has changed, when it is new, and always where
/// its time is not known.
pub proof fn law_reparse(known: Map<Seq<char>, Stamp>, path: Seq<char>, old_stamp: Stamp, stamp: Stamp)
    ensures
        stamp.mtime > 0 ==> (reparse(known.insert(path, old_stamp), path, stamp) <==> stamp.mtime
            != old_stamp.mtime || stamp.size != old_stamp.size),
        stamp.mtime <= 0 ==> reparse(known, path, stamp),
        !known.contains_key(path) ==> reparse(known, path, stamp),
{
}

/// After the walk the number of files is known; a cancelled walk is the end of the scan.
pub proof fn law_walk(a: Scan, b: Scan, files: u64, cancelled: bool)
    requires
        a.after_walk(files, cancelled, b),
    ensures
        b.files_on_disk == files,
        cancelled ==> b.phase == Phase::Over && b.payload.stage == ScanStage::Cancelled,
        !cancelled ==> b.phase == Phase::Open && b.payload.stage == ScanStage::Scanning
            && b.payload.total_files == Some(files),
        b.payload.added == a.payload.added && b.payload.updated == a.payload.updated
            && b.payload.removed == a.payload.removed,
        b.completed == a.completed && b.stored == a.stored,
{
}

/// Unchanged files count as done before any file is read, and a cancelled reading is the end.
pub proof fn law_unchanged_files_are_done(a: Scan, b: Scan, c: Scan, skipped: u64, cancelled: bool)
    requires
        a.after_diff(skipped, b),
        b.after_parse(cancelled, c),
    ensures
        b.done_base == skipped,
        b.payload.scanned_files == skipped,
        b.phase == Phase::Parse,
        b.files_on_disk == a.files_on_disk,
        cancelled ==> c.phase == Phase::Over && c.payload.stage == ScanStage::Cancelled,
        !cancelled ==> c == (Scan { phase: Phase::Begin, ..b }),
        c.completed == a.completed,
{
}

/// The reading is told no more than every tenth of a second, as so many files of all.
pub proof fn law_reading_is_told(s: Scan, read: u64, path: String, now_ms: int, last_ms: int)
    requires
        s.done_base + read <= u64::MAX,
    ensures
        Scan::is_time(now_ms, last_ms) <==> now_ms >= last_ms + 100,
        s.reading(read, path).scanned_files == s.done_base + read,
        s.reading(read, path).total_files == Some(s.files_on_disk),
        s.reading(read, path).current_path == Some(path),
        s.reading(read, path).stage == ScanStage::Scanning,
        s.reading(read, path).error is None,
        s.roots@.len() > 0 ==> s.reading(read, path).root == Some(s.roots@[0]),
        s.reading(read, path).added == 0 && s.reading(read, path).updated == 0 && s.reading(
            read,
            path,
        ).removed == 0,
{
}

/// Each track that is offered counts once: as added, as updated or as failed; the files that are
/// done never become fewer, and every 25th of them is told.
pub proof fn law_each_track_counts_once(
    a: Scan,
    b: Scan,
    path: Seq<char>,
    outcome: Result<bool, String>,
    report: bool,
)
    requires
        a.after_track(path, outcome, b, report),
        a.sane(),
        a.done_base + a.stored < a.files_on_disk,
    ensures
        b.stored == a.stored + 1,
        outcome is Ok && outcome->Ok_0 ==> b.payload.updated == a.payload.updated + 1
            && b.payload.added == a.payload.added,
        outcome is Ok && !outcome->Ok_0 ==> b.payload.added == a.payload.added + 1
            && b.payload.updated == a.payload.updated,
        outcome is Err ==> b.payload.added == a.payload.added && b.payload.updated
            == a.payload.updated,
        outcome is Ok ==> b.payload.error == a.payload.error,
        outcome matches Err(e) ==> opt_view(b.payload.error) == Some(
            "写入失败 "@ + path + ": "@ + e@,
        ),
        b.payload.scanned_files >= a.payload.scanned_files,
        b.payload.scanned_files >= b.done_base + b.stored,
        b.payload.scanned_files == a.payload.scanned_files || b.payload.scanned_files == b.done_base
            + b.stored,
        report <==> b.payload.scanned_files % 25 == 0,
        b.phase == a.phase && b.payload.removed == a.payload.removed && b.payload.stage
            == a.payload.stage,
        b.done_base == a.done_base && b.files_on_disk == a.files_on_disk && b.cut_short == a.cut_short,
{
}

/// Where the storing was cut short the scan is over and was cancelled; otherwise the tracks that
/// have gone are looked for. An error is told either way.
pub proof fn law_commit(a: Scan, b: Scan, error: Option<&str>)
    requires
        a.after_commit(error, b),
    ensures
        a.cut_short ==> b.phase == Phase::Over && b.payload.stage == ScanStage::Cancelled,
        !a.cut_short ==> b.phase == Phase::Clean && b.payload.stage == a.payload.stage,
        error is None ==> b.payload.error == a.payload.error,
        error matches Some(e) ==> opt_view(b.payload.error) == Some("提交写入失败: "@ + e@),
        b.payload.added == a.payload.added && b.payload.updated == a.payload.updated,
        b.completed == a.completed,
{
}

/// At its regular end a scan is done and complete, and tells the library what it has counted.
pub proof fn law_scan_tells_what_it_counted(a: Scan, b: Scan, total: i64, r: LibraryUpdatedPayload)
    requires
        a.after_end(total, b, r),
    ensures
        b.phase == Phase::Over && b.completed && b.payload.stage == ScanStage::Done,
        r.added == a.payload.added,
        r.updated == a.payload.updated,
        r.removed == a.payload.removed,
        r.total_tracks == total,
        b.payload.added == a.payload.added && b.payload.updated == a.payload.updated
            && b.payload.removed == a.payload.removed,
{
}

/// Without folders a scan is done at once; with an error it ends with it; otherwise the folders are
/// walked.
pub proof fn law_roots(a: Scan, b: Scan, roots: Result<Vec<String>, String>)
    requires
        a.after_roots(roots, b),
    ensures
        roots matches Ok(v) ==> (v@.len() > 0 ==> b.phase == Phase::Walk && b.roots == v && b.payload
            == a.payload),
        roots matches Ok(v) ==> (v@.len() == 0 ==> b.phase == Phase::Over && b.payload.stage
            == ScanStage::Done && b.payload.error == a.payload.error),
        roots matches Err(e) ==> b.phase == Phase::Over && b.payload.stage == ScanStage::Error
            && b.payload.error == Some(e),
        b.completed == a.completed,
        b.files_on_disk == a.files_on_disk && b.stored == a.stored,
{
}

/// The folder that is walked is the one that is told.
pub proof fn law_walked_folder_is_told(a: Scan, b: Scan, i: usize)
    requires
        a.in_root(i, b),
    ensures
        b.payload.root == Some(a.roots@[i as int]),
        b.phase == a.phase && b.roots == a.roots && b.payload.stage == a.payload.stage
            && b.payload.scanned_files == a.payload.scanned_files,
{
}

/// An error at the database ends a scan and is told; without one the scan goes on.
pub proof fn law_database_errors(a: Scan, b: Scan, c: Scan, error: Option<String>, text: Option<&str>)
    requires
        a.after_open(error, b),
        a.after_begin(text, c),
    ensures
        error is Some ==> b.phase == Phase::Over && b.payload.stage == ScanStage::Error
            && b.payload.error == error,
        error is None ==> b == (Scan { phase: Phase::Diff, ..a }),
        text is None ==> c == (Scan { phase: Phase::Store, ..a }),
        text matches Some(e) ==> c.phase == Phase::Over && c.payload.stage == ScanStage::Error
            && opt_view(c.payload.error) == Some("开启写入事务失败: "@ + e@),
        b.completed == a.completed && c.completed == a.completed,
        b.payload.added == a.payload.added && c.payload.added == a.payload.added,
{
}

/// Each removed track counts once and changes nothing else; cutting short changes no number.
pub proof fn law_removals_count(a: Scan, b: Scan, c: Scan)
    requires
        a.after_removal(b),
        a.after_cut(c),
        a.payload.removed < u64::MAX,
    ensures
        b.payload.removed == a.payload.removed + 1,
        b.payload.added == a.payload.added && b.payload.updated == a.payload.updated && b.phase
            == a.phase,
        c.cut_short,
        c.payload == a.payload && c.phase == a.phase && c.stored == a.stored,
{
}

} // verus!
