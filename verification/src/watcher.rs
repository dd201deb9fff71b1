//! Watching the music folders: which folders are watched, and when a change leads to a scan.

use crate::text::str_eq;
use vstd::prelude::*;

verus! {

/// Changes have to have settled for so long before they count, in milliseconds.
pub const DEBOUNCE_MS: u64 = 1500;

/// At most one scan is started in this time, in milliseconds.
pub const THROTTLE_MS: u64 = 3000;

/// What the watcher is told.
#[derive(Debug, PartialEq)]
pub enum WatchMsg {
    Add(String),
    Remove(String),
    /// Take the folders from the library again.
    RescanRoots,
    Shutdown,
}

/// The folders that are watched.
#[derive(Debug)]
pub struct Roots {
    pub paths: Vec<String>,
}

/// Some paths as texts.
pub open spec fn texts(paths: Seq<String>) -> Seq<Seq<char>> {
    paths.map_values(|p: String| p@)
}

/// A list after the paths of another one have been added that it lacks.
pub open spec fn with_all(have: Seq<Seq<char>>, more: Seq<Seq<char>>) -> Seq<Seq<char>>
    decreases more.len(),
{
    if more.len() == 0 {
        have
    } else {
        let before = with_all(have, more.drop_last());
        if before.contains(more.last()) {
            before
        } else {
            before.push(more.last())
        }
    }
}

/// A list after a folder was added to the library, and could be watched or not.
pub open spec fn with_folder(have: Seq<Seq<char>>, path: Seq<char>, watched: bool) -> Seq<Seq<char>> {
    if watched {
        have.push(path)
    } else {
        have
    }
}

/// The paths of a list that another one does not have, in their order.
pub open spec fn lacking(have: Seq<Seq<char>>, other: Seq<Seq<char>>) -> Seq<Seq<char>>
    decreases have.len(),
{
    if have.len() == 0 {
        Seq::empty()
    } else {
        let front = lacking(have.drop_last(), other);
        if other.contains(have.last()) {
            front
        } else {
            front.push(have.last())
        }
    }
}

/// The paths of a list that another one has, in their order.
pub open spec fn common(have: Seq<Seq<char>>, other: Seq<Seq<char>>) -> Seq<Seq<char>>
    decreases have.len(),
{
    if have.len() == 0 {
        Seq::empty()
    } else {
        let front = common(have.drop_last(), other);
        if other.contains(have.last()) {
            front.push(have.last())
        } else {
            front
        }
    }
}

/// Whether a path is in a list.
pub fn holds(paths: &[String], path: &str) -> (r: bool)
    ensures
        r == texts(paths@).contains(path@),
{
    let n: usize = paths.len();
    let mut i: usize = 0;
    while i < n
        invariant
            n == paths@.len(),
            i <= n,
            forall|k: int| 0 <= k < i ==> (#[trigger] paths@[k])@ != path@,
        decreases n - i,
    {
        if str_eq(paths[i].as_str(), path) {
            assert(texts(paths@)[i as int] == path@);
            return true;
        }
        i = i + 1;
    }
    proof {
        if texts(paths@).contains(path@) {
            let k = choose|k: int| 0 <= k < texts(paths@).len() && texts(paths@)[k] == path@;
            assert(paths@[k]@ == path@);
        }
    }
    false
}

/// What a new look at the library's folders leads to.
#[derive(Debug)]
pub struct RootChanges {
    /// The folders to start watching.
    pub watch: Vec<String>,
    /// The folders to stop watching.
    pub unwatch: Vec<String>,
}

impl Roots {
    pub open spec fn view(&self) -> Seq<Seq<char>> {
        texts(self.paths@)
    }

    /// No folders.
    pub fn new() -> (r: Self)
        ensures
            r@ == Seq::<Seq<char>>::empty(),
    {
        let r = Roots { paths: Vec::new() };
        assert(r@ =~= Seq::<Seq<char>>::empty());
        r
    }

    /// Whether a folder has to be watched that is not yet.
    pub fn wants(&self, path: &str) -> (r: bool)
        ensures
            r == !self@.contains(path@),
    {
        !holds(self.paths.as_slice(), path)
    }

    /// Takes note of a folder that was added, and whether it could be watched.
    pub fn added(&mut self, path: String, watched: bool)
        requires
            !old(self)@.contains(path@),
        ensures
            final(self)@ == with_folder(old(self)@, path@, watched),
    {
        if watched {
            self.paths.push(path);
            assert(self@ =~= old(self)@.push(path@));
        }
    }

    /// Takes note of a folder that was removed.
    pub fn removed(&mut self, path: &str)
        ensures
            final(self)@ == lacking(old(self)@, seq![path@]),
    {
        let n: usize = self.paths.len();
        let mut kept: Vec<String> = Vec::new();
        let mut i: usize = 0;
        let ghost before = self@;
        proof {
            assert(before.take(0) =~= Seq::<Seq<char>>::empty());
            assert(texts(kept@) =~= Seq::<Seq<char>>::empty());
        }
        while i < n
            invariant
                n == self.paths@.len(),
                before == self@,
                self@ == old(self)@,
                i <= n,
                texts(kept@) == lacking(before.take(i as int), seq![path@]),
            decreases n - i,
        {
            proof {
                let s = before.take(i + 1);
                assert(s.drop_last() =~= before.take(i as int));
                assert(s.last() == self.paths@[i as int]@);
                if self.paths@[i as int]@ == path@ {
                    assert(seq![path@][0] == path@);
                }
            }
            if !str_eq(self.paths[i].as_str(), path) {
                let ghost had = kept@;
                kept.push(self.paths[i].clone());
                assert(texts(kept@) =~= texts(had).push(self.paths@[i as int]@));
            }
            i = i + 1;
        }
        proof {
            assert(before.take(n as int) =~= before);
        }
        self.paths = kept;
    }

    /// Takes the library's folders for those to watch. The result is what has to change.
    pub fn rescan(&mut self, fresh: &[String]) -> (r: RootChanges)
        ensures
            final(self)@ == common(with_all(old(self)@, texts(fresh@)), texts(fresh@)),
            texts(r.watch@) == with_all(old(self)@, texts(fresh@)).skip(old(self)@.len() as int),
            texts(r.unwatch@) == lacking(with_all(old(self)@, texts(fresh@)), texts(fresh@)),
    {
        let n: usize = fresh.len();
        let mut watch: Vec<String> = Vec::new();
        let mut i: usize = 0;
        let ghost before = self@;
        let ghost other = texts(fresh@);
        proof {
            assert(other.take(0) =~= Seq::<Seq<char>>::empty());
            assert(texts(watch@) =~= before.skip(before.len() as int));
        }
        while i < n
            invariant
                n == fresh@.len(),
                i <= n,
                other == texts(fresh@),
                before == old(self)@,
                self@ == with_all(before, other.take(i as int)),
                before.len() <= self@.len(),
                texts(watch@) == self@.skip(before.len() as int),
            decreases n - i,
        {
            proof {
                let s = other.take(i + 1);
                assert(s.drop_last() =~= other.take(i as int));
                assert(s.last() == fresh@[i as int]@);
            }
            if !holds(self.paths.as_slice(), fresh[i].as_str()) {
                let ghost had = self@;
                let ghost told = watch@;
                self.paths.push(fresh[i].clone());
                watch.push(fresh[i].clone());
                proof {
                    assert(self@ =~= had.push(fresh@[i as int]@));
                    assert(texts(watch@) =~= texts(told).push(fresh@[i as int]@));
                    assert(self@.skip(before.len() as int) =~= had.skip(before.len() as int).push(
                        fresh@[i as int]@,
                    ));
                }
            }
            i = i + 1;
        }
        let ghost all = self@;
        let m: usize = self.paths.len();
        let mut unwatch: Vec<String> = Vec::new();
        let mut kept: Vec<String> = Vec::new();
        let mut k: usize = 0;
        proof {
            assert(other.take(n as int) =~= other);
            assert(all.take(0) =~= Seq::<Seq<char>>::empty());
            assert(texts(kept@) =~= Seq::<Seq<char>>::empty());
            assert(texts(unwatch@) =~= Seq::<Seq<char>>::empty());
        }
        while k < m
            invariant
                m == self.paths@.len(),
                all == self@,
                other == texts(fresh@),
                k <= m,
                texts(kept@) == common(all.take(k as int), other),
                texts(unwatch@) == lacking(all.take(k as int), other),
            decreases m - k,
        {
            proof {
                let s = all.take(k + 1);
                assert(s.drop_last() =~= all.take(k as int));
                assert(s.last() == self.paths@[k as int]@);
            }
            if holds(fresh, self.paths[k].as_str()) {
                let ghost had = kept@;
                kept.push(self.paths[k].clone());
                assert(texts(kept@) =~= texts(had).push(self.paths@[k as int]@));
            } else {
                let ghost had = unwatch@;
                unwatch.push(self.paths[k].clone());
                assert(texts(unwatch@) =~= texts(had).push(self.paths@[k as int]@));
            }
            k = k + 1;
        }
        proof {
            assert(all.take(m as int) =~= all);
        }
        self.paths = kept;
        RootChanges { watch, unwatch }
    }
}

proof fn lemma_with_all(have: Seq<Seq<char>>, more: Seq<Seq<char>>)
    ensures
        forall|x: Seq<char>|
            #![trigger with_all(have, more).contains(x)]
            with_all(have, more).contains(x) <==> have.contains(x) || more.contains(x),
    decreases more.len(),
{
    if more.len() > 0 {
        let front = more.drop_last();
        let last = more.last();
        lemma_with_all(have, front);
        let before = with_all(have, front);
        let now = with_all(have, more);
        assert forall|x: Seq<char>| #[trigger] now.contains(x) <==> have.contains(x) || more.contains(
            x,
        ) by {
            if more.contains(x) {
                let k = choose|k: int| 0 <= k < more.len() && more[k] == x;
                if k < more.len() - 1 {
                    assert(front[k] == x);
                    assert(before.contains(x));
                }
            }
            if before.contains(x) {
                let k = choose|k: int| 0 <= k < before.len() && before[k] == x;
                assert(now[k] == x);
                if front.contains(x) {
                    let j = choose|j: int| 0 <= j < front.len() && front[j] == x;
                    assert(more[j] == x);
                }
            }
            if x == last {
                assert(more[more.len() - 1] == x);
                if !before.contains(x) {
                    assert(now[now.len() - 1] == x);
                }
            }
            if now.contains(x) && x != last {
                let k = choose|k: int| 0 <= k < now.len() && now[k] == x;
                assert(before[k] == x);
            }
        }
    }
}

proof fn lemma_common(have: Seq<Seq<char>>, other: Seq<Seq<char>>)
    ensures
        forall|x: Seq<char>|
            #![trigger common(have, other).contains(x)]
            common(have, other).contains(x) <==> have.contains(x) && other.contains(x),
    decreases have.len(),
{
    if have.len() > 0 {
        let front = have.drop_last();
        let last = have.last();
        lemma_common(front, other);
        let before = common(front, other);
        let now = common(have, other);
        assert forall|x: Seq<char>| #[trigger] now.contains(x) <==> have.contains(x) && other.contains(
            x,
        ) by {
            if have.contains(x) && other.contains(x) {
                let k = choose|k: int| 0 <= k < have.len() && have[k] == x;
                if k < have.len() - 1 {
                    assert(front[k] == x);
                    assert(before.contains(x));
                    let j = choose|j: int| 0 <= j < before.len() && before[j] == x;
                    assert(now[j] == x);
                } else {
                    assert(now[now.len() - 1] == x);
                }
            }
            if now.contains(x) {
                let k = choose|k: int| 0 <= k < now.len() && now[k] == x;
                if k < before.len() {
                    assert(before[k] == x);
                    assert(before.contains(x));
                    let j = choose|j: int| 0 <= j < front.len() && front[j] == x;
                    assert(have[j] == x);
                } else {
                    assert(have[have.len() - 1] == x);
                }
            }
        }
    }
}

/// After a new look at the library exactly its folders are watched, whatever was watched before.
pub proof fn law_library_folders_are_watched(have: Seq<Seq<char>>, fresh: Seq<Seq<char>>)
    ensures
        forall|x: Seq<char>|
            #![trigger common(with_all(have, fresh), fresh).contains(x)]
            common(with_all(have, fresh), fresh).contains(x) <==> fresh.contains(x),
{
    lemma_with_all(have, fresh);
    lemma_common(with_all(have, fresh), fresh);
}

/// What a look at the clock leads to.
#[derive(Debug, Clone, Copy, PartialEq, Eq, Structural)]
pub struct Due {
    /// Whether the changes have been dealt with.
    pub settled: bool,
    /// Whether a scan starts.
    pub scan: bool,
}

/// What the ages of the last change and of the last scan lead to.
pub open spec fn due_now(dirty: bool, event_age_ms: Option<u64>, scan_age_ms: Option<u64>) -> Due {
    let settled = dirty && event_age_ms is Some && event_age_ms->0 > DEBOUNCE_MS;
    Due { settled, scan: settled && (scan_age_ms is None || scan_age_ms->0 > THROTTLE_MS) }
}

/// Decides whether changes lead to a scan: once they have settled, and not too soon after the last
/// scan.
pub fn due(dirty: bool, event_age_ms: Option<u64>, scan_age_ms: Option<u64>) -> (r: Due)
    ensures
        r == due_now(dirty, event_age_ms, scan_age_ms),
{
    let settled = dirty && match event_age_ms {
        Some(age) => age > DEBOUNCE_MS,
        None => false,
    };
    let rested = match scan_age_ms {
        Some(age) => age > THROTTLE_MS,
        None => true,
    };
    Due { settled, scan: settled && rested }
}

/// Changes count once a second and a half has passed without another one, and no two scans start
/// within three seconds.
pub proof fn law_due(dirty: bool, event_age_ms: u64, scan_age_ms: u64)
    ensures
        due_now(dirty, Some(event_age_ms), Some(scan_age_ms)).settled <==> dirty && event_age_ms > 1500,
        due_now(dirty, Some(event_age_ms), Some(scan_age_ms)).scan <==> dirty && event_age_ms > 1500
            && scan_age_ms > 3000,
        due_now(dirty, Some(event_age_ms), None).scan <==> dirty && event_age_ms > 1500,
        !due_now(dirty, None, Some(scan_age_ms)).settled,
        !due_now(dirty, None, Some(scan_age_ms)).scan,
        !due_now(false, Some(event_age_ms), None).scan,
{
}

/// A folder that could be watched is the last of the list, and one that could not is not in it.
pub proof fn law_folder_is_watched(have: Seq<Seq<char>>, path: Seq<char>)
    ensures
        with_folder(have, path, true).len() == have.len() + 1,
        with_folder(have, path, true).last() == path,
        with_folder(have, path, true).drop_last() == have,
        with_folder(have, path, false) == have,
{
    assert(have.push(path).drop_last() =~= have);
}

/// A folder that is removed is no longer watched, and all others are.
pub proof fn law_removed_folder_is_not_watched(have: Seq<Seq<char>>, path: Seq<char>)
    ensures
        forall|x: Seq<char>|
            #![trigger lacking(have, seq![path]).contains(x)]
            lacking(have, seq![path]).contains(x) <==> have.contains(x) && x != path,
{
    lemma_lacking(have, seq![path]);
    assert(seq![path][0] == path);
}

proof fn lemma_lacking(have: Seq<Seq<char>>, other: Seq<Seq<char>>)
    ensures
        forall|x: Seq<char>|
            #![trigger lacking(have, other).contains(x)]
            lacking(have, other).contains(x) <==> have.contains(x) && !other.contains(x),
    decreases have.len(),
{
    if have.len() > 0 {
        let front = have.drop_last();
        let last = have.last();
        lemma_lacking(front, other);
        let before = lacking(front, other);
        let now = lacking(have, other);
        assert forall|x: Seq<char>| #[trigger] now.contains(x) <==> have.contains(x)
            && !other.contains(x) by {
            if have.contains(x) && !other.contains(x) {
                let k = choose|k: int| 0 <= k < have.len() && have[k] == x;
                if k < have.len() - 1 {
                    assert(front[k] == x);
                    assert(before.contains(x));
                    let j = choose|j: int| 0 <= j < before.len() && before[j] == x;
                    assert(now[j] == x);
                } else {
                    assert(now[now.len() - 1] == x);
                }
            }
            if now.contains(x) {
                let k = choose|k: int| 0 <= k < now.len() && now[k] == x;
                if k < before.len() {
                    assert(before[k] == x);
                    assert(before.contains(x));
                    let j = choose|j: int| 0 <= j < front.len() && front[j] == x;
                    assert(have[j] == x);
                } else {
                    assert(have[have.len() - 1] == x);
                }
            }
        }
    }
}

/// A new look at the library starts watching just the folders that were not watched, and stops
/// watching just those that the library no longer has.
pub proof fn law_rescan_changes_what_differs(have: Seq<Seq<char>>, fresh: Seq<Seq<char>>)
    ensures
        with_all(have, fresh).take(have.len() as int) == have,
        forall|x: Seq<char>|
            #![trigger with_all(have, fresh).skip(have.len() as int).contains(x)]
            with_all(have, fresh).skip(have.len() as int).contains(x) <==> fresh.contains(x)
                && !have.contains(x),
        forall|x: Seq<char>|
            #![trigger lacking(with_all(have, fresh), fresh).contains(x)]
            lacking(with_all(have, fresh), fresh).contains(x) <==> have.contains(x) && !fresh.contains(
                x,
            ),
{
    lemma_with_all(have, fresh);
    lemma_lacking(with_all(have, fresh), fresh);
    lemma_new_folders(have, fresh);
}

proof fn lemma_new_folders(have: Seq<Seq<char>>, fresh: Seq<Seq<char>>)
    ensures
        have.len() <= with_all(have, fresh).len(),
        with_all(have, fresh).take(have.len() as int) == have,
        forall|x: Seq<char>|
            #![trigger with_all(have, fresh).skip(have.len() as int).contains(x)]
            with_all(have, fresh).skip(have.len() as int).contains(x) <==> fresh.contains(x)
                && !have.contains(x),
    decreases fresh.len(),
{
    let n = have.len() as int;
    if fresh.len() == 0 {
        assert(have.take(n) =~= have);
        assert(have.skip(n) =~= Seq::<Seq<char>>::empty());
    } else {
        let front = fresh.drop_last();
        let last = fresh.last();
        lemma_new_folders(have, front);
        lemma_with_all(have, front);
        let before = with_all(have, front);
        let now = with_all(have, fresh);
        assert(now.take(n) =~= before.take(n));
        assert forall|x: Seq<char>| #[trigger] now.skip(n).contains(x) <==> fresh.contains(x)
            && !have.contains(x) by {
            assert(front.push(last) =~= fresh);
            lemma_pushed(front, last, x);
            if !before.contains(last) {
                assert(now.skip(n) =~= before.skip(n).push(last));
                lemma_pushed(before.skip(n), last, x);
            }
            assert(before.skip(n).contains(x) <==> front.contains(x) && !have.contains(x));
            assert(before.contains(x) <==> have.contains(x) || front.contains(x));
        }
    }
}

proof fn lemma_pushed(s: Seq<Seq<char>>, y: Seq<char>, x: Seq<char>)
    ensures
        s.push(y).contains(x) <==> s.contains(x) || x == y,
{
    let t = s.push(y);
    if t.contains(x) {
        let k = choose|k: int| 0 <= k < t.len() && t[k] == x;
        if k < s.len() {
            assert(s[k] == x);
        }
    }
    if s.contains(x) {
        let k = choose|k: int| 0 <= k < s.len() && s[k] == x;
        assert(t[k] == x);
    }
    assert(t[s.len() as int] == y);
}

} // verus!
