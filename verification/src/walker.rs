//! The walk, one directory at a time.
//!
//! A `Walker` goes through a directory tree without reading it: it asks for
//! the listing of one directory, takes it, records what it finds and asks
//! for the next. The caller reads the directories. What the walker records
//! is what `walk` visits in the tree that the listings come from.

use crate::insight::{
    files_among, is_skipped, is_skipped_name, lemma_files_among_concat, lemma_recorded_concat,
    lemma_recorded_one, lemma_recorded_totals, lemma_walk_concat, record, record_dir,
    record_file, recorded, walk, walk_entry, DirEntry, EntryKind, InsightView, ProjectInsight,
    Visit,
};
use crate::text::{lemma_texts_push, texts};
use vstd::prelude::*;

verus! {

/// One entry of a directory listing.
#[derive(Debug, PartialEq, Eq)]
pub struct Listed {
    pub name: String,
    pub is_dir: bool,
}

/// A `Listed` as plain mathematical values.
pub struct ListedView {
    pub name: Seq<char>,
    pub is_dir: bool,
}

impl View for Listed {
    type V = ListedView;

    open spec fn view(&self) -> ListedView {
        ListedView { name: self.name@, is_dir: self.is_dir }
    }
}

/// A directory that is being walked: its listing, and how many of its
/// entries have been dealt with.
#[derive(Debug, PartialEq, Eq)]
pub struct Level {
    pub entries: Vec<Listed>,
    pub next: usize,
}

/// A `Level` as plain mathematical values.
pub struct LevelView {
    pub entries: Seq<ListedView>,
    pub next: nat,
}

/// The entries of a listing as plain values.
pub open spec fn listed(entries: Seq<Listed>) -> Seq<ListedView> {
    entries.map_values(|e: Listed| e@)
}

impl View for Level {
    type V = LevelView;

    open spec fn view(&self) -> LevelView {
        LevelView { entries: listed(self.entries@), next: self.next as nat }
    }
}

/// A walk in progress: the directories that are being walked, the outermost
/// first and each inside the one before it, and the summary so far.
#[derive(Debug, PartialEq, Eq)]
pub struct Walker {
    pub levels: Vec<Level>,
    pub insight: ProjectInsight,
    pub max_depth: usize,
}

/// A `Walker` as plain mathematical values.
#[verifier::ext_equal]
pub struct WalkerView {
    pub levels: Seq<LevelView>,
    pub insight: InsightView,
    pub max_depth: nat,
}

/// The levels as plain values.
pub open spec fn levels_view(levels: Seq<Level>) -> Seq<LevelView> {
    levels.map_values(|l: Level| l@)
}

impl View for Walker {
    type V = WalkerView;

    open spec fn view(&self) -> WalkerView {
        WalkerView {
            levels: levels_view(self.levels@),
            insight: self.insight@,
            max_depth: self.max_depth as nat,
        }
    }
}

/// What the walker asks for.
#[derive(Debug, PartialEq, Eq)]
pub enum WalkStep {
    /// The listing of the directory that is reached from the root by these
    /// names.
    Read(Vec<String>),
    /// Nothing: the walk is over.
    Done,
    /// Nothing: the files are more than can be counted.
    Stopped,
}

/// A `WalkStep` as plain mathematical values.
pub enum WalkStepView {
    Read(Seq<Seq<char>>),
    Done,
    Stopped,
}

impl View for WalkStep {
    type V = WalkStepView;

    open spec fn view(&self) -> WalkStepView {
        match self {
            WalkStep::Read(path) => WalkStepView::Read(texts(path@)),
            WalkStep::Done => WalkStepView::Done,
            WalkStep::Stopped => WalkStepView::Stopped,
        }
    }
}

/// How much is left to do at these levels: the entries not yet dealt with,
/// and the levels to leave.
pub open spec fn left(levels: Seq<LevelView>) -> nat
    decreases levels.len(),
{
    if levels.len() == 0 {
        0
    } else {
        left(levels.drop_last()) + (levels.last().entries.len() - levels.last().next) as nat + 1
    }
}

/// The names that lead from the root to the entry dealt with last: at each
/// level the name of the entry before `next`.
pub open spec fn trail(levels: Seq<LevelView>) -> Seq<Seq<char>> {
    Seq::new(levels.len(), |i: int| levels[i].entries[levels[i].next - 1].name)
}

/// The levels with the innermost moved on by one entry.
pub open spec fn moved_on(levels: Seq<LevelView>) -> Seq<LevelView> {
    levels.drop_last().push(
        LevelView { entries: levels.last().entries, next: levels.last().next + 1 },
    )
}

/// The walker goes on until it needs a listing or has none left to ask for.
/// It leaves the directories that are done, passes over skipped entries,
/// records each file and each directory, and asks for the listing of a
/// directory that is not too deep. It stops where it cannot count further.
pub open spec fn advanced(w: WalkerView) -> (WalkerView, WalkStepView)
    decreases left(w.levels),
    via advanced_terminates
{
    if w.levels.len() == 0 {
        (w, WalkStepView::Done)
    } else {
        let top = w.levels.last();
        let depth = (w.levels.len() - 1) as nat;
        if top.next >= top.entries.len() {
            advanced(WalkerView { levels: w.levels.drop_last(), ..w })
        } else {
            let entry = top.entries[top.next as int];
            let moved = WalkerView { levels: moved_on(w.levels), ..w };
            if is_skipped(entry.name) {
                advanced(moved)
            } else if entry.is_dir {
                let seen = WalkerView {
                    insight: record(w.insight, Visit::Dir { name: entry.name, depth }),
                    ..moved
                };
                if depth < w.max_depth {
                    (seen, WalkStepView::Read(trail(seen.levels)))
                } else {
                    advanced(seen)
                }
            } else if w.insight.total_files >= usize::MAX {
                (w, WalkStepView::Stopped)
            } else {
                advanced(
                    WalkerView {
                        insight: record(w.insight, Visit::File { name: entry.name, depth }),
                        ..moved
                    },
                )
            }
        }
    }
}

#[via_fn]
proof fn advanced_terminates(w: WalkerView) {
    if w.levels.len() > 0 {
        lemma_moved_on_leaves_less(w.levels);
    }
}

/// Moving on by one entry, where there is one, leaves less to do.
pub proof fn lemma_moved_on_leaves_less(levels: Seq<LevelView>)
    requires
        levels.len() > 0,
    ensures
        levels.last().next < levels.last().entries.len() ==> left(moved_on(levels)) < left(levels),
        left(levels.drop_last()) < left(levels),
{
    assert(moved_on(levels).drop_last() =~= levels.drop_last());
}

/// Whether the walker takes a listing: it has room for another level, and
/// it is at the start or has just dealt with an entry.
pub open spec fn takes(w: WalkerView) -> bool {
    w.levels.len() <= w.max_depth && (w.levels.len() == 0 || w.levels.last().next >= 1)
}

/// The walker with the listing `listing` as its innermost level, where it
/// takes one.
pub open spec fn entered(w: WalkerView, listing: Seq<ListedView>) -> WalkerView {
    if takes(w) {
        WalkerView { levels: w.levels.push(LevelView { entries: listing, next: 0 }), ..w }
    } else {
        w
    }
}

/// The levels are in order: in each no more entries are dealt with than
/// there are, and in each but the innermost one has been.
pub open spec fn levels_ok(levels: Seq<LevelView>) -> bool {
    &&& forall|i: int|
        0 <= i < levels.len() ==> (#[trigger] levels[i]).next <= levels[i].entries.len()
    &&& forall|i: int| 0 <= i < levels.len() - 1 ==> (#[trigger] levels[i]).next >= 1
}

/// The listing of a directory of a tree: the names of its entries, and
/// which of them are directories.
pub open spec fn listing_of(tree: Seq<DirEntry>) -> Seq<ListedView> {
    tree.map_values(|e: DirEntry| ListedView { name: e.name@, is_dir: e.kind is Dir })
}

/// What lies in an entry of a tree: the entries of a directory, nothing in
/// a file.
pub open spec fn children(entry: DirEntry) -> Seq<DirEntry> {
    match entry.kind {
        EntryKind::Dir(inside) => inside@,
        EntryKind::File => Seq::empty(),
    }
}

/// The walker is walking these directories of a tree: `forest` holds, for
/// each of its levels, the directory whose listing the level has.
pub open spec fn fits(w: WalkerView, forest: Seq<Seq<DirEntry>>) -> bool {
    &&& forest.len() == w.levels.len()
    &&& w.levels.len() <= w.max_depth + 1
    &&& levels_ok(w.levels)
    &&& forall|i: int|
        0 <= i < w.levels.len() ==> (#[trigger] w.levels[i]).entries == listing_of(forest[i])
}

/// The visits that are still to come: at each level, the innermost first,
/// the walk over the entries not yet dealt with.
pub open spec fn to_come(levels: Seq<LevelView>, forest: Seq<Seq<DirEntry>>, max_depth: nat) -> Seq<
    Visit,
>
    decreases levels.len(),
{
    if levels.len() == 0 || forest.len() != levels.len() {
        Seq::empty()
    } else {
        walk(
            forest.last().skip(levels.last().next as int),
            (levels.len() - 1) as nat,
            max_depth,
        ) + to_come(levels.drop_last(), forest.drop_last(), max_depth)
    }
}

/// The walk over the entries from `k` on begins with the visits of entry `k`.
pub proof fn lemma_walk_front(entries: Seq<DirEntry>, k: int, depth: nat, max_depth: nat)
    requires
        0 <= k < entries.len(),
        depth <= max_depth,
    ensures
        walk(entries.skip(k), depth, max_depth) == walk_entry(entries[k], depth, max_depth) + walk(
            entries.skip(k + 1),
            depth,
            max_depth,
        ),
{
    let one = seq![entries[k]];
    assert(entries.skip(k) =~= one + entries.skip(k + 1));
    lemma_walk_concat(one, entries.skip(k + 1), depth, max_depth);
    assert(one.drop_last() =~= Seq::<DirEntry>::empty());
    assert(one.last() == entries[k]);
    assert(walk(one.drop_last(), depth, max_depth) =~= Seq::<Visit>::empty());
    assert(walk(one, depth, max_depth) =~= walk_entry(entries[k], depth, max_depth));
}

/// The walker keeps to the walk. Where it is walking the directories
/// `forest` of a tree, what it has recorded and the visits still to come
/// make up the same summary before and after it goes on:
///
/// - when it is done, it has recorded all that was to come;
/// - when it asks for a listing, it asks for the directory it has just
///   recorded, and with the listing of what lies in that directory it is
///   walking the tree one level further in, with the same summary to end
///   with;
/// - when it stops, the files are more than can be counted.
///
/// So a walker that starts with the listing of the root of a tree and is
/// given, each time it asks, the listing of the directory that it asks for,
/// ends with the summary that `walk` gives for the tree.
pub proof fn law_walker_keeps_to_the_walk(w: WalkerView, forest: Seq<Seq<DirEntry>>)
    requires
        fits(w, forest),
    ensures
        match advanced(w).1 {
            WalkStepView::Done => {
                &&& advanced(w).0.levels.len() == 0
                &&& advanced(w).0.insight == recorded(
                    w.insight,
                    to_come(w.levels, forest, w.max_depth),
                )
            },
            WalkStepView::Stopped => w.insight.total_files + files_among(
                to_come(w.levels, forest, w.max_depth),
            ) > usize::MAX,
            WalkStepView::Read(path) => {
                let after = advanced(w).0;
                let kept = forest.take(after.levels.len() as int);
                let asked = kept.last()[after.levels.last().next - 1];
                let inside = entered(after, listing_of(children(asked)));
                &&& 1 <= after.levels.len() <= forest.len()
                &&& fits(after, kept)
                &&& takes(after)
                &&& asked.kind is Dir
                &&& path == trail(after.levels)
                &&& fits(inside, kept.push(children(asked)))
                &&& recorded(
                    inside.insight,
                    to_come(inside.levels, kept.push(children(asked)), w.max_depth),
                ) == recorded(w.insight, to_come(w.levels, forest, w.max_depth))
            },
        },
    decreases left(w.levels),
{
    let max = w.max_depth;
    if w.levels.len() > 0 {
        let top = w.levels.last();
        let depth = (w.levels.len() - 1) as nat;
        let lower = to_come(w.levels.drop_last(), forest.drop_last(), max);
        let here = forest.last();
        assert(top == w.levels[w.levels.len() - 1]);
        assert(top.entries == listing_of(here));
        lemma_moved_on_leaves_less(w.levels);
        if top.next >= top.entries.len() {
            let popped = WalkerView { levels: w.levels.drop_last(), ..w };
            let fewer = forest.drop_last();
            assert(here.skip(top.next as int) =~= Seq::<DirEntry>::empty());
            assert(to_come(w.levels, forest, max) =~= lower);
            assert(fits(popped, fewer)) by {
                assert forall|i: int| 0 <= i < popped.levels.len() implies (
                #[trigger] popped.levels[i]).entries == listing_of(fewer[i]) by {
                    assert(popped.levels[i] == w.levels[i]);
                }
                assert forall|i: int| 0 <= i < popped.levels.len() implies (
                #[trigger] popped.levels[i]).next <= popped.levels[i].entries.len() by {
                    assert(popped.levels[i] == w.levels[i]);
                }
                assert forall|i: int| 0 <= i < popped.levels.len() - 1 implies (
                #[trigger] popped.levels[i]).next >= 1 by {
                    assert(popped.levels[i] == w.levels[i]);
                }
            }
            law_walker_keeps_to_the_walk(popped, fewer);
            if advanced(w).1 is Read {
                let reached = advanced(w).0.levels.len() as int;
                assert(fewer.take(reached) =~= forest.take(reached));
            }
        } else {
            let at = top.next as int;
            let entry = top.entries[at];
            let found = here[at];
            assert(entry == ListedView { name: found.name@, is_dir: found.kind is Dir });
            let visits = walk_entry(found, depth, max);
            let rest = walk(here.skip(at + 1), depth, max);
            lemma_walk_front(here, at, depth, max);
            let moved = WalkerView { levels: moved_on(w.levels), ..w };
            assert(moved.levels.drop_last() =~= w.levels.drop_last());
            assert(moved.levels.last().next == at + 1);
            assert(to_come(moved.levels, forest, max) == rest + lower);
            assert(to_come(w.levels, forest, max) =~= visits + (rest + lower));
            assert(fits(moved, forest)) by {
                assert forall|i: int| 0 <= i < moved.levels.len() implies (
                #[trigger] moved.levels[i]).entries == listing_of(forest[i]) && moved.levels[i].next
                    <= moved.levels[i].entries.len() by {
                    if i < w.levels.len() - 1 {
                        assert(moved.levels[i] == w.levels[i]);
                    }
                }
                assert forall|i: int| 0 <= i < moved.levels.len() - 1 implies (
                #[trigger] moved.levels[i]).next >= 1 by {
                    assert(moved.levels[i] == w.levels[i]);
                }
            }
            if is_skipped(entry.name) {
                assert(visits =~= Seq::<Visit>::empty());
                assert(to_come(w.levels, forest, max) =~= to_come(moved.levels, forest, max));
                law_walker_keeps_to_the_walk(moved, forest);
            } else if entry.is_dir {
                let visit = Visit::Dir { name: entry.name, depth };
                let seen = WalkerView { insight: record(w.insight, visit), ..moved };
                let below = children(found);
                let inner = walk(below, depth + 1, max);
                assert(visits == seq![visit] + inner);
                lemma_recorded_one(w.insight, visit);
                lemma_recorded_concat(w.insight, seq![visit], inner + (rest + lower));
                assert(to_come(w.levels, forest, max) =~= seq![visit] + (inner + (rest + lower)));
                assert(fits(seen, forest));
                if depth < max {
                    let kept = forest.take(seen.levels.len() as int);
                    assert(kept =~= forest);
                    let inside = entered(seen, listing_of(below));
                    assert(takes(seen));
                    let deeper = kept.push(below);
                    assert(inside.levels.drop_last() =~= seen.levels);
                    assert(deeper.drop_last() =~= forest);
                    assert(below.skip(0) =~= below);
                    assert(to_come(inside.levels, deeper, max) =~= inner + (rest + lower));
                    assert(fits(inside, deeper)) by {
                        assert forall|i: int| 0 <= i < inside.levels.len() implies (
                        #[trigger] inside.levels[i]).entries == listing_of(deeper[i])
                            && inside.levels[i].next <= inside.levels[i].entries.len() by {
                            if i < seen.levels.len() {
                                assert(inside.levels[i] == seen.levels[i]);
                            }
                        }
                        assert forall|i: int| 0 <= i < inside.levels.len() - 1 implies (
                        #[trigger] inside.levels[i]).next >= 1 by {
                            assert(inside.levels[i] == seen.levels[i]);
                        }
                    }
                } else {
                    assert(inner =~= Seq::<Visit>::empty());
                    assert(to_come(w.levels, forest, max) =~= seq![visit] + to_come(
                        seen.levels,
                        forest,
                        max,
                    ));
                    lemma_recorded_concat(
                        w.insight,
                        seq![visit],
                        to_come(seen.levels, forest, max),
                    );
                    lemma_files_among_concat(seq![visit], to_come(seen.levels, forest, max));
                    law_walker_keeps_to_the_walk(seen, forest);
                }
            } else {
                let visit = Visit::File { name: entry.name, depth };
                assert(visits =~= seq![visit]);
                assert(to_come(w.levels, forest, max) =~= seq![visit] + to_come(
                    moved.levels,
                    forest,
                    max,
                ));
                lemma_recorded_one(w.insight, visit);
                lemma_files_among_concat(seq![visit], to_come(moved.levels, forest, max));
                if w.insight.total_files < usize::MAX {
                    let counted = WalkerView { insight: record(w.insight, visit), ..moved };
                    lemma_recorded_concat(
                        w.insight,
                        seq![visit],
                        to_come(moved.levels, forest, max),
                    );
                    assert(fits(counted, forest));
                    law_walker_keeps_to_the_walk(counted, forest);
                }
            }
        }
    } else {
        assert(to_come(w.levels, forest, max) =~= Seq::<Visit>::empty());
    }
}

/// At the start of a walk over a tree, with the listing of its root, all
/// that `walk` visits in the tree is still to come.
pub proof fn law_walk_starts_at_the_root(
    project_type: Seq<char>,
    tree: Seq<DirEntry>,
    max_depth: nat,
)
    ensures
        ({
            let start = WalkerView {
                levels: Seq::empty(),
                insight: crate::insight::blank(project_type),
                max_depth,
            };
            let first = entered(start, listing_of(tree));
            &&& fits(first, seq![tree])
            &&& first.insight == crate::insight::blank(project_type)
            &&& to_come(first.levels, seq![tree], max_depth) == walk(tree, 0, max_depth)
        }),
{
    let start = WalkerView {
        levels: Seq::empty(),
        insight: crate::insight::blank(project_type),
        max_depth,
    };
    let first = entered(start, listing_of(tree));
    let forest = seq![tree];
    assert(first.levels.drop_last() =~= Seq::<LevelView>::empty());
    assert(forest.drop_last() =~= Seq::<Seq<DirEntry>>::empty());
    assert(tree.skip(0) =~= tree);
    assert(to_come(first.levels.drop_last(), forest.drop_last(), max_depth) =~= Seq::<
        Visit,
    >::empty());
    assert(to_come(first.levels, forest, max_depth) =~= walk(tree, 0, max_depth));
}

impl Walker {
    /// The walker is in order: its levels are, it is no deeper than it may
    /// go, and its summary is consistent.
    pub open spec fn wf(&self) -> bool {
        &&& levels_ok(self@.levels)
        &&& self.levels.len() <= self.max_depth + 1
        &&& self.insight.wf()
    }

    /// A walker at the start of a walk that goes `max_depth` levels deep,
    /// for a project of the type `project_type`.
    pub fn new(project_type: String, max_depth: usize) -> (walker: Walker)
        ensures
            walker@.levels.len() == 0,
            walker@.insight == crate::insight::blank(project_type@),
            walker@.max_depth == max_depth,
            walker.wf(),
    {
        let walker = Walker {
            levels: Vec::new(),
            insight: ProjectInsight::new(project_type),
            max_depth,
        };
        assert(walker@.levels =~= Seq::<LevelView>::empty());
        walker
    }

    /// A walker at the start of the walk that summarises a project, at whose
    /// root the files named in `present` were found.
    pub fn for_project(present: &Vec<String>) -> (walker: Walker)
        ensures
            walker@.levels.len() == 0,
            walker@.insight == crate::insight::blank(
                crate::insight::project_type_of(texts(present@)),
            ),
            walker@.max_depth == crate::insight::MAX_DEPTH,
            walker.wf(),
    {
        Walker::new(crate::insight::detect_project_type(present), crate::insight::MAX_DEPTH)
    }

    /// The names that lead from the root to the entry dealt with last.
    fn path(&self) -> (path: Vec<String>)
        requires
            forall|i: int|
                0 <= i < self@.levels.len() ==> 1 <= (#[trigger] self@.levels[i]).next
                    <= self@.levels[i].entries.len(),
        ensures
            texts(path@) == trail(self@.levels),
    {
        let mut path: Vec<String> = Vec::new();
        let mut i: usize = 0;
        while i < self.levels.len()
            invariant
                i <= self.levels.len(),
                forall|k: int|
                    0 <= k < self@.levels.len() ==> 1 <= (#[trigger] self@.levels[k]).next
                        <= self@.levels[k].entries.len(),
                texts(path@) == trail(self@.levels).take(i as int),
            decreases self.levels.len() - i,
        {
            let level = &self.levels[i];
            assert(self@.levels[i as int] == level@);
            let name = level.entries[level.next - 1].name.clone();
            proof {
                lemma_texts_push(path@, name);
                assert(level@.entries[level.next - 1] == level.entries[level.next - 1]@);
            }
            path.push(name);
            i += 1;
            assert(texts(path@) =~= trail(self@.levels).take(i as int));
        }
        assert(trail(self@.levels).take(self.levels.len() as int) =~= trail(self@.levels));
        path
    }

    /// Goes on until a listing is needed or none is left to ask for.
    pub fn advance(&mut self) -> (step: WalkStep)
        requires
            old(self).wf(),
        ensures
            (final(self)@, step@) == advanced(old(self)@),
            final(self).wf(),
    {
        loop
            invariant
                self.wf(),
                advanced(self@) == advanced(old(self)@),
            decreases left(self@.levels),
        {
            if self.levels.len() == 0 {
                return WalkStep::Done;
            }
            let at = self.levels.len() - 1;
            let ghost before = self@;
            proof {
                assert(before.levels.last() == self.levels[at as int]@);
            }
            if self.levels[at].next >= self.levels[at].entries.len() {
                self.levels.pop();
                proof {
                    assert(self@.levels =~= before.levels.drop_last());
                    assert(self@ == (WalkerView { levels: before.levels.drop_last(), ..before }));
                }
            } else {
                let next = self.levels[at].next;
                let skipped = is_skipped_name(self.levels[at].entries[next].name.as_str());
                let is_dir = self.levels[at].entries[next].is_dir;
                proof {
                    assert(before.levels.last().entries[next as int]
                        == self.levels[at as int].entries[next as int]@);
                }
                if !skipped && !is_dir && self.insight.total_files == usize::MAX {
                    return WalkStep::Stopped;
                }
                self.levels[at].next = next + 1;
                proof {
                    assert(self@.levels =~= moved_on(before.levels));
                    assert(left(moved_on(before.levels)) < left(before.levels)) by {
                        assert(moved_on(before.levels).drop_last() =~= before.levels.drop_last());
                    }
                }
                if !skipped {
                    if is_dir {
                        record_dir(
                            &mut self.insight,
                            self.levels[at].entries[next].name.as_str(),
                            at,
                        );
                        proof {
                            crate::insight::lemma_record_consistent(
                                before.insight,
                                Visit::Dir {
                                    name: before.levels.last().entries[next as int].name,
                                    depth: at as nat,
                                },
                            );
                        }
                        if at < self.max_depth {
                            let path = self.path();
                            return WalkStep::Read(path);
                        }
                    } else {
                        record_file(
                            &mut self.insight,
                            self.levels[at].entries[next].name.as_str(),
                            at,
                        );
                    }
                }
            }
        }
    }

    /// Takes the listing of the directory that was asked for, or of the root
    /// at the start, and goes on. A directory that could not be read has an
    /// empty listing. A listing that was not asked for at a place where none
    /// can be taken is dropped.
    pub fn enter(&mut self, listing: Vec<Listed>) -> (step: WalkStep)
        requires
            old(self).wf(),
        ensures
            (final(self)@, step@) == advanced(entered(old(self)@, listed(listing@))),
            final(self).wf(),
    {
        let ghost before = self@;
        let room = self.levels.len() <= self.max_depth;
        let ready = self.levels.len() == 0 || self.levels[self.levels.len() - 1].next >= 1;
        proof {
            if self.levels.len() > 0 {
                assert(before.levels.last() == self.levels[self.levels.len() - 1]@);
            }
        }
        if room && ready {
            self.levels.push(Level { entries: listing, next: 0 });
            proof {
                assert(self@.levels =~= before.levels.push(
                    LevelView { entries: listed(listing@), next: 0 },
                ));
                assert(self@ == entered(before, listed(listing@)));
            }
        }
        self.advance()
    }
}

} // verus!
