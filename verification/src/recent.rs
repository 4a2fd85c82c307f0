//! Recent-folder bookkeeping and the in-memory configuration state.
//!
//! The configuration holds the recently used folders, newest first, and
//! the chosen log verbosity. Everything here is pure state handling:
//! the calling layer supplies timestamps (milliseconds since the Unix
//! epoch), persists the state, shows folder pickers and drives the
//! logging backend.

use vstd::prelude::*;
use vstd::seq_lib::group_to_multiset_ensures;

use crate::levels::{level_filter_of_string, LevelFilter};

verus! {

broadcast use group_to_multiset_ensures;

/// How many recently used folders are kept.
pub const NUMBER_OF_RECENT_FOLDERS: usize = 10;

/// One recently used folder: its path and when it was last selected.
#[derive(Clone, Debug)]
pub struct RecentFolder {
    /// The folder's path, as the calling layer handed it in.
    pub path: String,
    /// Milliseconds since the Unix epoch at the last selection.
    pub date: u64,
}

impl RecentFolder {
    /// A fresh entry for the path, stamped with the caller's clock.
    pub fn new(path: &str, now_millis: u64) -> (r: RecentFolder)
        ensures
            r.path@ == path@,
            r.date == now_millis,
    {
        let mut recent_folder = RecentFolder { path: String::from_str(path), date: 0 };
        recent_folder.update_entry_date(now_millis);
        recent_folder
    }

    /// Re-stamp the entry with the caller's clock.
    pub fn update_entry_date(&mut self, now_millis: u64)
        ensures
            final(self).path == old(self).path,
            final(self).date == now_millis,
    {
        self.date = now_millis;
    }
}

/// Newest first: dates never increase along the list.
pub open spec fn sorted_by_date_desc(s: Seq<RecentFolder>) -> bool {
    forall|i: int, j: int| 0 <= i < j < s.len() ==> s[i].date >= s[j].date
}

/// Some entry carries this path.
pub open spec fn has_path(s: Seq<RecentFolder>, path: Seq<char>) -> bool {
    exists|i: int| 0 <= i < s.len() && (#[trigger] s[i]).path@ == path
}

/// The entries that do not carry this path, in their original order.
pub open spec fn without_path(s: Seq<RecentFolder>, path: Seq<char>) -> Seq<RecentFolder>
    decreases s.len(),
{
    if s.len() == 0 {
        Seq::empty()
    } else {
        let rest = without_path(s.drop_last(), path);
        if s.last().path@ == path {
            rest
        } else {
            rest.push(s.last())
        }
    }
}

/// A list entry accounted for after a selection: either it was already
/// listed, or it is the selected path stamped with the caller's clock.
pub open spec fn kept_entry_ok(
    before: Seq<RecentFolder>,
    e: RecentFolder,
    path: Seq<char>,
    now: u64,
) -> bool {
    before.to_multiset().contains(e) || (e.path@ == path && e.date == now)
}

/// No two entries carry this path.
pub open spec fn at_most_one_path(s: Seq<RecentFolder>, path: Seq<char>) -> bool {
    forall|i: int, j: int|
        0 <= i < j < s.len() && (#[trigger] s[i]).path@ == path ==> (#[trigger] s[j]).path@
            != path
}

/// A list holding the entry `e` once, all of whose other entries carry
/// a different path, keeps carrying that path at most once under any
/// reordering.
proof fn lemma_unique_path_permutes(
    committed: Seq<RecentFolder>,
    sorted: Seq<RecentFolder>,
    pos: int,
    path: Seq<char>,
)
    requires
        committed.to_multiset() == sorted.to_multiset(),
        0 <= pos < committed.len(),
        committed[pos].path@ == path,
        forall|k: int|
            0 <= k < committed.len() && k != pos ==> (#[trigger] committed[k]).path@ != path,
    ensures
        at_most_one_path(sorted, path),
{
    let e = committed[pos];
    assert(committed.remove(pos).to_multiset() =~= committed.to_multiset().remove(e));
    assert(!committed.remove(pos).contains(e)) by {
        if committed.remove(pos).contains(e) {
            let k = choose|k: int|
                0 <= k < committed.remove(pos).len() && committed.remove(pos)[k] == e;
            if k < pos {
                assert(committed[k] == e);
            } else {
                assert(committed[k + 1] == e);
            }
        }
    }
    assert(committed.to_multiset().count(e) == 1) by {
        assert(committed.remove(pos).to_multiset().count(e) == 0);
    }
    assert forall|i: int, j: int|
        0 <= i < j < sorted.len() && (#[trigger] sorted[i]).path@ == path implies (
    #[trigger] sorted[j]).path@ != path by {
        if sorted[j].path@ == path {
            assert(sorted[i] == e) by {
                assert(sorted.contains(sorted[i]));
                assert(committed.to_multiset().count(sorted[i]) > 0);
                assert(committed.contains(sorted[i]));
                let a = choose|a: int|
                    0 <= a < committed.len() && committed[a] == sorted[i];
            }
            assert(sorted[j] == e) by {
                assert(sorted.contains(sorted[j]));
                assert(committed.to_multiset().count(sorted[j]) > 0);
                assert(committed.contains(sorted[j]));
                let b = choose|b: int|
                    0 <= b < committed.len() && committed[b] == sorted[j];
            }
            assert(sorted.remove(i).to_multiset() =~= sorted.to_multiset().remove(e));
            assert(sorted.remove(i)[j - 1] == sorted[j]);
            assert(sorted.remove(i).contains(e));
            assert(sorted.to_multiset().count(e) >= 2);
        }
    }
}

/// The one entry strictly newer than all the others leads any ordering
/// of the list that is sorted newest first.
proof fn lemma_newest_entry_leads(
    committed: Seq<RecentFolder>,
    sorted: Seq<RecentFolder>,
    pos: int,
    now: u64,
)
    requires
        committed.to_multiset() == sorted.to_multiset(),
        committed.len() == sorted.len(),
        sorted_by_date_desc(sorted),
        0 <= pos < committed.len(),
        committed[pos].date == now,
        forall|k: int| 0 <= k < committed.len() && k != pos ==> (#[trigger] committed[k]).date
            < now,
    ensures
        sorted.len() >= 1,
        sorted[0] == committed[pos],
{
    let e = committed[pos];
    assert(committed.contains(e));
    assert(sorted.to_multiset().count(e) > 0);
    assert(sorted.contains(e));
    let v = choose|v: int| 0 <= v < sorted.len() && sorted[v] == e;
    assert(sorted[0].date >= now) by {
        if v > 0 {
            assert(sorted[0].date >= sorted[v].date);
        }
    }
    assert(sorted.contains(sorted[0]));
    assert(committed.to_multiset().count(sorted[0]) > 0);
    assert(committed.contains(sorted[0]));
    let a = choose|a: int| 0 <= a < committed.len() && committed[a] == sorted[0];
    if a != pos {
        assert(committed[a].date < now);
    }
}

/// The in-memory configuration: recently used folders and the log
/// verbosity.
pub struct GuiConfig {
    recent_folders: Vec<RecentFolder>,
    log_level: LevelFilter,
}

impl GuiConfig {
    /// The recently used folders, as listed.
    pub closed spec fn folders(&self) -> Seq<RecentFolder> {
        self.recent_folders@
    }

    /// The chosen verbosity threshold.
    pub closed spec fn level(&self) -> LevelFilter {
        self.log_level
    }

    /// A configuration with no recent folders and the default level.
    pub fn new() -> (r: GuiConfig)
        ensures
            r.folders() == Seq::<RecentFolder>::empty(),
            r.level() == LevelFilter::Info,
    {
        GuiConfig { recent_folders: Vec::new(), log_level: LevelFilter::Info }
    }

    /// The index of an entry no other entry's date exceeds.
    fn index_of_latest(v: &Vec<RecentFolder>) -> (r: usize)
        requires
            v@.len() >= 1,
        ensures
            r < v@.len(),
            forall|i: int| 0 <= i < v@.len() ==> v@[r as int].date >= v@[i].date,
    {
        let mut best: usize = 0;
        let mut i: usize = 1;
        while i < v.len()
            invariant
                1 <= v@.len(),
                best < i <= v@.len(),
                forall|k: int| 0 <= k < i ==> v@[best as int].date >= v@[k].date,
            decreases v@.len() - i,
        {
            if v[i].date > v[best].date {
                best = i;
            }
            i = i + 1;
        }
        best
    }

    /// Order the recent folders newest first. The entries themselves
    /// are kept: only their order changes.
    pub fn sort_recent_folders(&mut self)
        ensures
            final(self).folders().to_multiset() == old(self).folders().to_multiset(),
            final(self).folders().len() == old(self).folders().len(),
            sorted_by_date_desc(final(self).folders()),
            final(self).level() == old(self).level(),
    {
        let mut out: Vec<RecentFolder> = Vec::new();
        proof {
            assert(out@.to_multiset().add(self.recent_folders@.to_multiset()) =~= old(
                self,
            ).recent_folders@.to_multiset());
        }
        while self.recent_folders.len() > 0
            invariant
                sorted_by_date_desc(out@),
                out@.to_multiset().add(self.recent_folders@.to_multiset()) == old(
                    self,
                ).recent_folders@.to_multiset(),
                out@.len() + self.recent_folders@.len() == old(self).recent_folders@.len(),
                forall|i: int, j: int|
                    0 <= i < out@.len() && 0 <= j < self.recent_folders@.len() ==> out@[i].date
                        >= self.recent_folders@[j].date,
                self.log_level == old(self).log_level,
            decreases self.recent_folders@.len(),
        {
            let ghost pre_out = out@;
            let ghost pre_rest = self.recent_folders@;
            let k = Self::index_of_latest(&self.recent_folders);
            let item = self.recent_folders.remove(k);
            out.push(item);
            proof {
                assert(out@.to_multiset() =~= pre_out.to_multiset().insert(item));
                assert(self.recent_folders@.to_multiset() =~= pre_rest.to_multiset().remove(
                    item,
                ));
                assert(pre_rest.to_multiset().contains(item)) by {
                    assert(pre_rest[k as int] == item);
                    assert(pre_rest.contains(item));
                }
                assert(out@.to_multiset().add(self.recent_folders@.to_multiset())
                    =~= pre_out.to_multiset().add(pre_rest.to_multiset()));
                assert forall|i: int, j: int|
                    0 <= i < out@.len() && 0 <= j < self.recent_folders@.len() implies out@[i].date
                    >= self.recent_folders@[j].date by {
                    if j < k {
                        assert(self.recent_folders@[j] == pre_rest[j]);
                    } else {
                        assert(self.recent_folders@[j] == pre_rest[j + 1]);
                    }
                }
            }
        }
        proof {
            assert(self.recent_folders@.to_multiset().len() == 0);
            assert(out@.to_multiset().add(self.recent_folders@.to_multiset())
                =~= out@.to_multiset());
        }
        self.recent_folders = out;
    }

    /// The recently used folder paths, in list order.
    pub fn get_recent_folders(&self) -> (r: Vec<String>)
        ensures
            r.deep_view() == Seq::new(self.folders().len(), |i: int| self.folders()[i].path@),
    {
        let mut out: Vec<String> = Vec::new();
        let n: usize = self.recent_folders.len();
        let mut i: usize = 0;
        while i < n
            invariant
                n == self.recent_folders@.len(),
                0 <= i <= n,
                out@.len() == i,
                forall|k: int| 0 <= k < i ==> (#[trigger] out@[k])@ == self.recent_folders@[k].path@,
            decreases n - i,
        {
            out.push(self.recent_folders[i].path.clone());
            i = i + 1;
        }
        proof {
            assert(out.deep_view() =~= Seq::new(
                self.folders().len(),
                |i: int| self.folders()[i].path@,
            ));
        }
        out
    }

    /// Forget every entry carrying this path; the order of the others
    /// is kept.
    pub fn remove_recent_folder(&mut self, path: &str)
        ensures
            final(self).folders() == without_path(old(self).folders(), path@),
            final(self).level() == old(self).level(),
    {
        let sel = String::from_str(path);
        let mut out: Vec<RecentFolder> = Vec::new();
        let n: usize = self.recent_folders.len();
        let mut i: usize = 0;
        proof {
            assert(without_path(self.recent_folders@.take(0), path@) =~= Seq::<
                RecentFolder,
            >::empty());
            assert(out@ =~= without_path(self.recent_folders@.take(0), path@));
        }
        while i < n
            invariant
                n == self.recent_folders@.len(),
                0 <= i <= n,
                sel@ == path@,
                out@ == without_path(self.recent_folders@.take(i as int), path@),
                self.log_level == old(self).log_level,
                self.recent_folders == old(self).recent_folders,
            decreases n - i,
        {
            let ghost prefix = self.recent_folders@.take(i as int);
            if !(self.recent_folders[i].path == sel) {
                let kept = RecentFolder {
                    path: self.recent_folders[i].path.clone(),
                    date: self.recent_folders[i].date,
                };
                proof {
                    assert(kept == self.recent_folders@[i as int]);
                }
                out.push(kept);
            }
            i = i + 1;
            proof {
                let next = self.recent_folders@.take(i as int);
                assert(next.drop_last() =~= prefix);
                assert(next.last() == self.recent_folders@[i - 1]);
                assert(self.recent_folders@[i - 1].path@ == sel@ ==> out@ == without_path(
                    next,
                    path@,
                ));
            }
        }
        proof {
            assert(self.recent_folders@.take(n as int) =~= self.recent_folders@);
        }
        self.recent_folders = out;
    }

    /// The decision part of selecting a recent folder, once any folder
    /// picking has happened outside: a known path is re-stamped with the
    /// caller's clock, an unknown path is added when `new` selections
    /// are allowed and is otherwise rejected. On a committed selection
    /// the list is re-ordered newest first and capped.
    #[verifier::rlimit(100)]
    #[verifier::spinoff_prover]
    pub fn select_recent_folder(&mut self, selected_folder: &str, new: bool, now_millis: u64) -> (r:
        Option<String>)
        ensures
            final(self).level() == old(self).level(),
            r is None <==> (!new && !has_path(old(self).folders(), selected_folder@)),
            r is None ==> final(self).folders() == old(self).folders(),
            r is Some ==> {
                &&& r->0@ == selected_folder@
                &&& sorted_by_date_desc(final(self).folders())
                &&& final(self).folders().len() <= NUMBER_OF_RECENT_FOLDERS
                &&& final(self).folders().len() <= old(self).folders().len() + 1
                &&& forall|i: int|
                    0 <= i < final(self).folders().len() ==> kept_entry_ok(
                        old(self).folders(),
                        #[trigger] final(self).folders()[i],
                        selected_folder@,
                        now_millis,
                    )
                &&& old(self).folders().len() < NUMBER_OF_RECENT_FOLDERS ==> has_path(
                    final(self).folders(),
                    selected_folder@,
                )
            },
            (r is Some && (forall|i: int|
                0 <= i < old(self).folders().len() ==> (#[trigger] old(
                    self,
                ).folders()[i]).date < now_millis)) ==> {
                &&& final(self).folders().len() >= 1
                &&& final(self).folders()[0].path@ == selected_folder@
                &&& final(self).folders()[0].date == now_millis
            },
            (r is Some && at_most_one_path(old(self).folders(), selected_folder@))
                ==> at_most_one_path(final(self).folders(), selected_folder@),
    {
        let sel = String::from_str(selected_folder);
        let n: usize = self.recent_folders.len();
        let mut found: bool = false;
        let mut idx: usize = 0;
        let mut i: usize = 0;
        while i < n
            invariant
                n == self.recent_folders@.len(),
                0 <= i <= n,
                sel@ == selected_folder@,
                !found ==> !has_path(self.recent_folders@.take(i as int), selected_folder@),
                found ==> idx < n && self.recent_folders@[idx as int].path@ == selected_folder@,
                self.recent_folders == old(self).recent_folders,
                self.log_level == old(self).log_level,
            decreases n - i,
        {
            if !found && self.recent_folders[i].path == sel {
                found = true;
                idx = i;
            }
            i = i + 1;
            proof {
                if !found {
                    assert(self.recent_folders@.take(i as int).drop_last()
                        =~= self.recent_folders@.take(i - 1));
                }
            }
        }
        proof {
            assert(self.recent_folders@.take(n as int) =~= self.recent_folders@);
        }
        if found {
            let mut entry = self.recent_folders.remove(idx);
            entry.update_entry_date(now_millis);
            let ghost mid = self.recent_folders@;
            self.recent_folders.insert(idx, entry);
            proof {
                assert(self.recent_folders@[idx as int] == entry);
                assert forall|k: int|
                    0 <= k < self.recent_folders@.len() && k != idx implies
                    #[trigger] self.recent_folders@[k] == old(self).recent_folders@[k] by {
                    if k < idx {
                        assert(self.recent_folders@[k] == mid[k]);
                        assert(mid[k] == old(self).recent_folders@[k]);
                    } else {
                        assert(self.recent_folders@[k] == mid[k - 1]);
                        assert(mid[k - 1] == old(self).recent_folders@[k]);
                    }
                }
                assert forall|i: int|
                    0 <= i < self.recent_folders@.len() implies kept_entry_ok(
                    old(self).recent_folders@,
                    #[trigger] self.recent_folders@[i],
                    selected_folder@,
                    now_millis,
                ) by {
                    if i != idx {
                        let witness = self.recent_folders@[i];
                        assert(mid.contains(witness)) by {
                            if i < idx {
                                assert(mid[i] == self.recent_folders@[i]);
                            } else {
                                assert(mid[i - 1] == self.recent_folders@[i]);
                            }
                        }
                        assert(old(self).recent_folders@.contains(witness)) by {
                            let k = choose|k: int| 0 <= k < mid.len() && mid[k] == witness;
                            if k < idx {
                                assert(old(self).recent_folders@[k] == witness);
                            } else {
                                assert(old(self).recent_folders@[k + 1] == witness);
                            }
                        }
                    }
                }
            }
        } else if new {
            self.recent_folders.push(RecentFolder::new(selected_folder, now_millis));
            proof {
                assert forall|i: int|
                    0 <= i < self.recent_folders@.len() implies kept_entry_ok(
                    old(self).recent_folders@,
                    #[trigger] self.recent_folders@[i],
                    selected_folder@,
                    now_millis,
                ) by {
                    if i < old(self).recent_folders@.len() {
                        assert(old(self).recent_folders@.contains(self.recent_folders@[i]));
                    }
                }
            }
        } else {
            return None;
        }
        let ghost committed = self.recent_folders@;
        let ghost pos: int = if found {
            idx as int
        } else {
            committed.len() - 1
        };
        proof {
            assert(has_path(committed, selected_folder@)) by {
                if found {
                    assert(committed[idx as int].path@ == selected_folder@);
                } else {
                    assert(committed[committed.len() - 1].path@ == selected_folder@);
                }
            }
            assert(0 <= pos < committed.len());
            assert(committed[pos].path@ == selected_folder@ && committed[pos].date
                == now_millis);
            if at_most_one_path(old(self).folders(), selected_folder@) {
                assert forall|k: int|
                    0 <= k < committed.len() && k != pos implies (#[trigger] committed[k]).path@
                    != selected_folder@ by {
                    assert(committed[k] == old(self).recent_folders@[k]);
                    if committed[k].path@ == selected_folder@ {
                        if found {
                            assert(old(self).recent_folders@[idx as int].path@
                                == selected_folder@);
                        } else {
                            assert(has_path(old(self).recent_folders@, selected_folder@));
                        }
                    }
                }
            }
            if forall|i: int|
                0 <= i < old(self).folders().len() ==> (#[trigger] old(self).folders()[i]).date
                    < now_millis {
                assert forall|k: int|
                    0 <= k < committed.len() && k != pos implies (#[trigger] committed[k]).date
                    < now_millis by {
                    assert(committed[k] == old(self).recent_folders@[k]);
                    assert(old(self).folders()[k].date < now_millis);
                }
            }
        }
        self.sort_recent_folders();
        proof {
            assert(has_path(self.recent_folders@, selected_folder@)) by {
                let w = choose|w: int|
                    0 <= w < committed.len() && (#[trigger] committed[w]).path@
                        == selected_folder@;
                assert(committed.contains(committed[w]));
                assert(committed.to_multiset().contains(committed[w]));
                assert(self.recent_folders@.to_multiset().contains(committed[w]));
                assert(self.recent_folders@.contains(committed[w]));
                let v = choose|v: int|
                    0 <= v < self.recent_folders@.len() && self.recent_folders@[v]
                        == committed[w];
                assert(self.recent_folders@[v].path@ == selected_folder@);
            }
            assert forall|i: int|
                0 <= i < self.recent_folders@.len() implies kept_entry_ok(
                old(self).recent_folders@,
                #[trigger] self.recent_folders@[i],
                selected_folder@,
                now_millis,
            ) by {
                assert(self.recent_folders@.contains(self.recent_folders@[i]));
                assert(self.recent_folders@.to_multiset().contains(self.recent_folders@[i]));
                assert(committed.to_multiset().contains(self.recent_folders@[i]));
                assert(committed.contains(self.recent_folders@[i]));
                let k = choose|k: int|
                    0 <= k < committed.len() && committed[k] == self.recent_folders@[i];
                assert(kept_entry_ok(
                    old(self).recent_folders@,
                    committed[k],
                    selected_folder@,
                    now_millis,
                ));
            }
        }
        let ghost sorted_all = self.recent_folders@;
        proof {
            if old(self).recent_folders@.len() < NUMBER_OF_RECENT_FOLDERS {
                assert(sorted_all.len() <= NUMBER_OF_RECENT_FOLDERS);
            }
            if at_most_one_path(old(self).folders(), selected_folder@) {
                lemma_unique_path_permutes(committed, sorted_all, pos, selected_folder@);
            }
            if forall|i: int|
                0 <= i < old(self).folders().len() ==> (#[trigger] old(self).folders()[i]).date
                    < now_millis {
                lemma_newest_entry_leads(committed, sorted_all, pos, now_millis);
            }
        }
        if self.recent_folders.len() > NUMBER_OF_RECENT_FOLDERS {
            self.recent_folders.truncate(NUMBER_OF_RECENT_FOLDERS);
            proof {
                assert forall|i: int, j: int|
                    0 <= i < j < self.recent_folders@.len() implies self.recent_folders@[i].date
                    >= self.recent_folders@[j].date by {
                    assert(self.recent_folders@[i] == sorted_all[i]);
                    assert(self.recent_folders@[j] == sorted_all[j]);
                }
                assert forall|i: int|
                    0 <= i < self.recent_folders@.len() implies kept_entry_ok(
                    old(self).recent_folders@,
                    #[trigger] self.recent_folders@[i],
                    selected_folder@,
                    now_millis,
                ) by {
                    assert(self.recent_folders@[i] == sorted_all[i]);
                }
            }
        }
        proof {
            assert(self.recent_folders@ == sorted_all || self.recent_folders@
                == sorted_all.subrange(0, NUMBER_OF_RECENT_FOLDERS as int));
            assert forall|i: int|
                0 <= i < self.recent_folders@.len() implies #[trigger] self.recent_folders@[i]
                == sorted_all[i] by {
                if self.recent_folders@ != sorted_all {
                    assert(self.recent_folders@[i] == sorted_all.subrange(
                        0,
                        NUMBER_OF_RECENT_FOLDERS as int,
                    )[i]);
                }
            }
            if forall|i: int|
                0 <= i < old(self).folders().len() ==> (#[trigger] old(self).folders()[i]).date
                    < now_millis {
                assert(sorted_all[0] == committed[pos]);
                assert(self.recent_folders@.len() >= 1);
                assert(self.recent_folders@[0] == sorted_all[0]);
            }
            if at_most_one_path(old(self).folders(), selected_folder@) {
                assert forall|i: int, j: int|
                    0 <= i < j < self.recent_folders@.len() && (
                #[trigger] self.recent_folders@[i]).path@ == selected_folder@ implies (
                #[trigger] self.recent_folders@[j]).path@ != selected_folder@ by {
                    assert(self.recent_folders@[i] == sorted_all[i]);
                    assert(self.recent_folders@[j] == sorted_all[j]);
                }
            }
        }
        Some(sel)
    }

    /// Fold entries recovered from a saved configuration into the list
    /// (order the result newest first) and apply a saved level name, if
    /// one was saved.
    pub fn load_saved_config(&mut self, folders: Vec<RecentFolder>, saved_level: Option<&str>)
        ensures
            sorted_by_date_desc(final(self).folders()),
            final(self).folders().to_multiset() == old(self).folders().to_multiset().add(
                folders@.to_multiset(),
            ),
            final(self).level() == match saved_level {
                Some(name) => level_filter_of_string(name@),
                None => old(self).level(),
            },
    {
        let mut folders = folders;
        let ghost orig_ms = folders@.to_multiset();
        while folders.len() > 0
            invariant
                self.recent_folders@.to_multiset().add(folders@.to_multiset()) == old(
                    self,
                ).recent_folders@.to_multiset().add(orig_ms),
                self.log_level == old(self).log_level,
            decreases folders@.len(),
        {
            let ghost pre_list = self.recent_folders@;
            let ghost pre_rest = folders@;
            let item = folders.remove(0);
            self.recent_folders.push(item);
            proof {
                assert(self.recent_folders@.to_multiset() =~= pre_list.to_multiset().insert(
                    item,
                ));
                assert(folders@.to_multiset() =~= pre_rest.to_multiset().remove(item));
                assert(pre_rest.to_multiset().contains(item)) by {
                    assert(pre_rest[0] == item);
                    assert(pre_rest.contains(item));
                }
                assert(self.recent_folders@.to_multiset().add(folders@.to_multiset())
                    =~= pre_list.to_multiset().add(pre_rest.to_multiset()));
            }
        }
        proof {
            assert(folders@.to_multiset().len() == 0);
            assert(self.recent_folders@.to_multiset().add(folders@.to_multiset())
                =~= self.recent_folders@.to_multiset());
        }
        match saved_level {
            Some(name) => {
                self.set_log_level(name);
            },
            None => {},
        }
        self.sort_recent_folders();
    }

    /// The recently used folders themselves, in list order.
    pub fn recent_entries(&self) -> (r: Vec<RecentFolder>)
        ensures
            r@ == self.folders(),
    {
        let mut out: Vec<RecentFolder> = Vec::new();
        let n: usize = self.recent_folders.len();
        let mut i: usize = 0;
        while i < n
            invariant
                n == self.recent_folders@.len(),
                0 <= i <= n,
                out@ == self.recent_folders@.take(i as int),
            decreases n - i,
        {
            let entry = RecentFolder {
                path: self.recent_folders[i].path.clone(),
                date: self.recent_folders[i].date,
            };
            proof {
                assert(entry == self.recent_folders@[i as int]);
            }
            out.push(entry);
            i = i + 1;
            proof {
                assert(out@ =~= self.recent_folders@.take(i as int));
            }
        }
        proof {
            assert(out@ =~= self.recent_folders@);
        }
        out
    }

    /// The chosen verbosity threshold.
    pub fn get_log_level(&self) -> (r: LevelFilter)
        ensures
            r == self.level(),
    {
        self.log_level
    }

    /// Choose the verbosity threshold by name, without regard to ASCII
    /// letter case; an unrecognized name selects the default level. The
    /// calling layer re-drives its logging backend afterwards.
    pub fn set_log_level(&mut self, log_level: &str)
        ensures
            final(self).level() == level_filter_of_string(log_level@),
            final(self).folders() == old(self).folders(),
    {
        self.log_level = crate::levels::get_level_or_default_from_string(log_level);
    }
}

} // verus!
