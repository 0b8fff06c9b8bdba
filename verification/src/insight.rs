//! The project summary: what kind of project a directory holds, how many
//! files of which type lie in it, and an outline of its upper levels.
//!
//! The directory is given as a tree of names, as it was read. The walk over it
//! is specified as the sequence of entries that are visited; the summary is
//! that sequence recorded entry by entry.

pub use crate::report::print_insight;
use crate::text::{chars_of, lemma_texts_push, repeat, repeated, text_of, texts};
use vstd::prelude::*;

verus! {

/// One entry of a directory, as it was read.
#[derive(Debug)]
pub struct DirEntry {
    pub name: String,
    pub kind: EntryKind,
}

/// What an entry is. A directory holds the entries that were read from it;
/// one that could not be read, or was not read, holds none.
#[derive(Debug)]
pub enum EntryKind {
    File,
    Dir(Vec<DirEntry>),
}

/// The summary of a project.
#[derive(Debug, PartialEq, Eq)]
pub struct ProjectInsight {
    /// The detected kind of project.
    pub project_type: String,
    /// File extensions with the number of files that have them, in the order
    /// in which the extensions were first met.
    pub file_counts: Vec<(String, usize)>,
    /// The number of files visited.
    pub total_files: usize,
    /// The manifest files met, in the order of the walk.
    pub dependencies: Vec<String>,
    /// The outline of the tree, one line for each entry shown.
    pub structure: Vec<String>,
}

/// A summary as plain mathematical values.
#[verifier::ext_equal]
pub struct InsightView {
    pub project_type: Seq<char>,
    pub file_counts: Seq<(Seq<char>, nat)>,
    pub total_files: nat,
    pub dependencies: Seq<Seq<char>>,
    pub structure: Seq<Seq<char>>,
}

/// One step of the walk: an entry that is visited, with the depth of the
/// directory it lies in.
pub enum Visit {
    Dir { name: Seq<char>, depth: nat },
    File { name: Seq<char>, depth: nat },
}

/// The extension tallies as plain values.
pub open spec fn counts_view(counts: Seq<(String, usize)>) -> Seq<(Seq<char>, nat)> {
    counts.map_values(|p: (String, usize)| (p.0@, p.1 as nat))
}

impl View for ProjectInsight {
    type V = InsightView;

    open spec fn view(&self) -> InsightView {
        InsightView {
            project_type: self.project_type@,
            file_counts: counts_view(self.file_counts@),
            total_files: self.total_files as nat,
            dependencies: texts(self.dependencies@),
            structure: texts(self.structure@),
        }
    }
}

/// The name begins with a dot.
pub open spec fn is_hidden(name: Seq<char>) -> bool {
    name.len() > 0 && name[0] == '.'
}

/// The walk passes over an entry of this name, whatever it is and holds.
pub open spec fn is_skipped(name: Seq<char>) -> bool {
    ||| is_hidden(name)
    ||| name == "target"@
    ||| name == "node_modules"@
    ||| name == "__pycache__"@
}

/// A file of this name is listed among the dependency files.
pub open spec fn is_manifest(name: Seq<char>) -> bool {
    ||| name == "Cargo.toml"@
    ||| name == "package.json"@
    ||| name == "requirements.txt"@
    ||| name == "go.mod"@
    ||| name == "pom.xml"@
    ||| name == "Gemfile"@
    ||| name == "composer.json"@
}

/// The position of the last `c` in `s`, or -1 where there is none.
pub open spec fn last_index_of(s: Seq<char>, c: char) -> int
    decreases s.len(),
{
    if s.len() == 0 {
        -1
    } else if s.last() == c {
        s.len() - 1
    } else {
        last_index_of(s.drop_last(), c)
    }
}

/// The extension of a file name: what follows its last dot, unless that dot
/// is the first character or there is none.
pub open spec fn extension(name: Seq<char>) -> Option<Seq<char>> {
    let dot = last_index_of(name, '.');
    if dot > 0 {
        Some(name.subrange(dot + 1, name.len() as int))
    } else {
        None
    }
}

/// The tally that a file of this name counts for.
pub open spec fn bucket(name: Seq<char>) -> Seq<char> {
    match extension(name) {
        Some(ext) => ext,
        None => "no-ext"@,
    }
}

/// Two spaces for each level of depth.
pub open spec fn indent(depth: nat) -> Seq<char> {
    repeated("  "@, depth)
}

/// The outline's line for a directory.
pub open spec fn dir_line(name: Seq<char>, depth: nat) -> Seq<char> {
    indent(depth) + name + "/"@
}

/// The outline's line for a file.
pub open spec fn file_line(name: Seq<char>, depth: nat) -> Seq<char> {
    indent(depth) + name
}

/// The entries visited in the directory `entries`, which lies at `depth`, and
/// below it, in the order of the walk: each entry that is not skipped, a
/// directory followed at once by what is visited inside it. Nothing is
/// visited in a directory deeper than `max_depth`.
pub open spec fn walk(entries: Seq<DirEntry>, depth: nat, max_depth: nat) -> Seq<Visit>
    decreases max_depth + 1 - depth, entries.len() + 1,
{
    if depth > max_depth || entries.len() == 0 {
        Seq::empty()
    } else {
        walk(entries.drop_last(), depth, max_depth) + walk_entry(
            entries.last(),
            depth,
            max_depth,
        )
    }
}

/// The visits that one entry of a directory at `depth` gives rise to.
pub open spec fn walk_entry(entry: DirEntry, depth: nat, max_depth: nat) -> Seq<Visit>
    decreases max_depth + 1 - depth, 0nat,
{
    if depth > max_depth || is_skipped(entry.name@) {
        Seq::empty()
    } else {
        match entry.kind {
            EntryKind::File => seq![Visit::File { name: entry.name@, depth }],
            EntryKind::Dir(children) => seq![Visit::Dir { name: entry.name@, depth }] + walk(
                children@,
                depth + 1,
                max_depth,
            ),
        }
    }
}

/// The position of `key` in the tallies, or -1 where it has none.
pub open spec fn index_of(counts: Seq<(Seq<char>, nat)>, key: Seq<char>) -> int
    decreases counts.len(),
{
    if counts.len() == 0 {
        -1
    } else {
        let before = index_of(counts.drop_last(), key);
        if before >= 0 {
            before
        } else if counts.last().0 == key {
            counts.len() - 1
        } else {
            -1
        }
    }
}

/// The tallies after one more file of extension `key`: its tally grows by
/// one, or a tally of one is added at the end.
pub open spec fn bumped(counts: Seq<(Seq<char>, nat)>, key: Seq<char>) -> Seq<(Seq<char>, nat)> {
    let at = index_of(counts, key);
    if at >= 0 {
        counts.update(at, (key, counts[at].1 + 1))
    } else {
        counts.push((key, 1))
    }
}

/// The summary after one more visit.
pub open spec fn record(seen: InsightView, visit: Visit) -> InsightView {
    match visit {
        Visit::Dir { name, depth } => InsightView {
            structure: seen.structure.push(dir_line(name, depth)),
            ..seen
        },
        Visit::File { name, depth } => InsightView {
            project_type: seen.project_type,
            file_counts: bumped(seen.file_counts, bucket(name)),
            total_files: seen.total_files + 1,
            dependencies: if is_manifest(name) {
                seen.dependencies.push(name)
            } else {
                seen.dependencies
            },
            structure: if depth < 2 {
                seen.structure.push(file_line(name, depth))
            } else {
                seen.structure
            },
        },
    }
}

/// The summary after the visits `visits`, in their order.
pub open spec fn recorded(seen: InsightView, visits: Seq<Visit>) -> InsightView
    decreases visits.len(),
{
    if visits.len() == 0 {
        seen
    } else {
        record(recorded(seen, visits.drop_last()), visits.last())
    }
}

/// The number of files among the visits.
pub open spec fn files_among(visits: Seq<Visit>) -> nat
    decreases visits.len(),
{
    if visits.len() == 0 {
        0
    } else {
        files_among(visits.drop_last()) + if visits.last() is File {
            1nat
        } else {
            0nat
        }
    }
}

/// The sum of the tallies.
pub open spec fn count_sum(counts: Seq<(Seq<char>, nat)>) -> nat
    decreases counts.len(),
{
    if counts.len() == 0 {
        0
    } else {
        count_sum(counts.drop_last()) + counts.last().1
    }
}

/// No extension has two tallies.
pub open spec fn distinct_keys(counts: Seq<(Seq<char>, nat)>) -> bool {
    forall|i: int, j: int|
        0 <= i < j < counts.len() ==> (#[trigger] counts[i]).0 != (#[trigger] counts[j]).0
}

/// The tallies are consistent: no extension stands twice, none has a tally of
/// zero, and together they account for every file.
pub open spec fn consistent(seen: InsightView) -> bool {
    &&& distinct_keys(seen.file_counts)
    &&& forall|i: int| 0 <= i < seen.file_counts.len() ==> (#[trigger] seen.file_counts[i]).1 > 0
    &&& count_sum(seen.file_counts) == seen.total_files
}

impl ProjectInsight {
    /// The summary is consistent.
    pub open spec fn wf(&self) -> bool {
        consistent(self@)
    }
}

/// Recording a run of visits is recording its first part, then the rest.
pub proof fn lemma_recorded_concat(seen: InsightView, first: Seq<Visit>, rest: Seq<Visit>)
    ensures
        recorded(seen, first + rest) == recorded(recorded(seen, first), rest),
    decreases rest.len(),
{
    if rest.len() == 0 {
        assert(first + rest =~= first);
    } else {
        lemma_recorded_concat(seen, first, rest.drop_last());
        assert((first + rest).drop_last() =~= first + rest.drop_last());
        assert((first + rest).last() == rest.last());
    }
}

/// Recording a single visit.
pub proof fn lemma_recorded_one(seen: InsightView, visit: Visit)
    ensures
        recorded(seen, seq![visit]) == record(seen, visit),
        files_among(seq![visit]) == if visit is File {
            1nat
        } else {
            0nat
        },
{
    let one = seq![visit];
    assert(one.drop_last() =~= Seq::<Visit>::empty());
    assert(recorded(seen, one.drop_last()) == seen);
    assert(files_among(one.drop_last()) == 0);
}

/// The files among a run of visits are those of its first part and those of
/// the rest.
pub proof fn lemma_files_among_concat(first: Seq<Visit>, rest: Seq<Visit>)
    ensures
        files_among(first + rest) == files_among(first) + files_among(rest),
    decreases rest.len(),
{
    if rest.len() == 0 {
        assert(first + rest =~= first);
    } else {
        lemma_files_among_concat(first, rest.drop_last());
        assert((first + rest).drop_last() =~= first + rest.drop_last());
        assert((first + rest).last() == rest.last());
    }
}

/// Recording leaves the project type alone and counts each file once.
pub proof fn lemma_recorded_totals(seen: InsightView, visits: Seq<Visit>)
    ensures
        recorded(seen, visits).project_type == seen.project_type,
        recorded(seen, visits).total_files == seen.total_files + files_among(visits),
    decreases visits.len(),
{
    if visits.len() > 0 {
        lemma_recorded_totals(seen, visits.drop_last());
    }
}

/// The walk over a directory is the walk over its first entries, then the
/// walk over the rest.
pub proof fn lemma_walk_concat(
    first: Seq<DirEntry>,
    rest: Seq<DirEntry>,
    depth: nat,
    max_depth: nat,
)
    ensures
        walk(first + rest, depth, max_depth) == walk(first, depth, max_depth) + walk(
            rest,
            depth,
            max_depth,
        ),
    decreases rest.len(),
{
    if rest.len() == 0 {
        assert(first + rest =~= first);
        assert(walk(first, depth, max_depth) + Seq::<Visit>::empty() =~= walk(
            first,
            depth,
            max_depth,
        ));
    } else if depth > max_depth {
        assert(Seq::<Visit>::empty() + Seq::<Visit>::empty() =~= Seq::<Visit>::empty());
    } else {
        lemma_walk_concat(first, rest.drop_last(), depth, max_depth);
        assert((first + rest).drop_last() =~= first + rest.drop_last());
        assert((first + rest).last() == rest.last());
        let a = walk(first, depth, max_depth);
        let b = walk(rest.drop_last(), depth, max_depth);
        let c = walk_entry(rest.last(), depth, max_depth);
        assert((a + b) + c =~= a + (b + c));
    }
}

/// The walk over the first `k + 1` entries is the walk over the first `k`,
/// then the visits of entry `k`.
pub proof fn lemma_walk_step(entries: Seq<DirEntry>, k: int, depth: nat, max_depth: nat)
    requires
        0 <= k < entries.len(),
        depth <= max_depth,
    ensures
        walk(entries.take(k + 1), depth, max_depth) == walk(entries.take(k), depth, max_depth)
            + walk_entry(entries[k], depth, max_depth),
{
    assert(entries.take(k + 1).drop_last() =~= entries.take(k));
    assert(entries.take(k + 1).last() == entries[k]);
}

/// No more files are visited among the first entries of a directory than in
/// all of it.
pub proof fn lemma_walk_prefix_files(entries: Seq<DirEntry>, k: int, depth: nat, max_depth: nat)
    requires
        0 <= k <= entries.len(),
    ensures
        files_among(walk(entries.take(k), depth, max_depth)) <= files_among(
            walk(entries, depth, max_depth),
        ),
{
    let first = entries.take(k);
    let rest = entries.skip(k);
    assert(first + rest =~= entries);
    lemma_walk_concat(first, rest, depth, max_depth);
    lemma_files_among_concat(walk(first, depth, max_depth), walk(rest, depth, max_depth));
}

/// `key` stands at `at` and nowhere before it.
pub proof fn lemma_index_of_found(counts: Seq<(Seq<char>, nat)>, key: Seq<char>, at: int)
    requires
        0 <= at < counts.len(),
        counts[at].0 == key,
        forall|j: int| 0 <= j < at ==> (#[trigger] counts[j]).0 != key,
    ensures
        index_of(counts, key) == at,
    decreases counts.len(),
{
    if at < counts.len() - 1 {
        lemma_index_of_found(counts.drop_last(), key, at);
    } else {
        lemma_index_of_absent(counts.drop_last(), key);
    }
}

/// `key` stands nowhere.
pub proof fn lemma_index_of_absent(counts: Seq<(Seq<char>, nat)>, key: Seq<char>)
    requires
        forall|j: int| 0 <= j < counts.len() ==> (#[trigger] counts[j]).0 != key,
    ensures
        index_of(counts, key) == -1,
    decreases counts.len(),
{
    if counts.len() > 0 {
        lemma_index_of_absent(counts.drop_last(), key);
    }
}

/// Where `index_of` points, the key stands; where it points nowhere, the key
/// is absent.
pub proof fn lemma_index_of_shape(counts: Seq<(Seq<char>, nat)>, key: Seq<char>)
    ensures
        -1 <= index_of(counts, key) < counts.len(),
        index_of(counts, key) >= 0 ==> counts[index_of(counts, key)].0 == key,
        index_of(counts, key) == -1 ==> forall|j: int|
            0 <= j < counts.len() ==> (#[trigger] counts[j]).0 != key,
    decreases counts.len(),
{
    if counts.len() > 0 {
        let front = counts.drop_last();
        lemma_index_of_shape(front, key);
        if index_of(counts, key) == -1 {
            assert forall|j: int| 0 <= j < counts.len() implies (#[trigger] counts[j]).0
                != key by {
                if j < front.len() {
                    assert(front[j] == counts[j]);
                }
            }
        }
    }
}

/// A tally raised by `by` raises the sum by `by`.
pub proof fn lemma_count_sum_update(counts: Seq<(Seq<char>, nat)>, at: int, by: nat)
    requires
        0 <= at < counts.len(),
    ensures
        count_sum(counts.update(at, (counts[at].0, counts[at].1 + by))) == count_sum(counts) + by,
        counts[at].1 <= count_sum(counts),
    decreases counts.len(),
{
    let changed = counts.update(at, (counts[at].0, counts[at].1 + by));
    if at == counts.len() - 1 {
        assert(changed.drop_last() =~= counts.drop_last());
    } else {
        lemma_count_sum_update(counts.drop_last(), at, by);
        assert(changed.drop_last() =~= counts.drop_last().update(
            at,
            (counts[at].0, counts[at].1 + by),
        ));
    }
}

/// One more file keeps the tallies consistent.
pub proof fn lemma_record_consistent(seen: InsightView, visit: Visit)
    requires
        consistent(seen),
    ensures
        consistent(record(seen, visit)),
{
    match visit {
        Visit::Dir { name, depth } => {},
        Visit::File { name, depth } => {
            let key = bucket(name);
            let counts = seen.file_counts;
            let after = bumped(counts, key);
            lemma_index_of_shape(counts, key);
            let at = index_of(counts, key);
            if at >= 0 {
                lemma_count_sum_update(counts, at, 1);
                assert(after =~= counts.update(at, (counts[at].0, counts[at].1 + 1)));
                assert forall|i: int, j: int| 0 <= i < j < after.len() implies (
                #[trigger] after[i]).0 != (#[trigger] after[j]).0 by {
                    assert(after[i].0 == counts[i].0);
                    assert(after[j].0 == counts[j].0);
                }
                assert forall|i: int| 0 <= i < after.len() implies (#[trigger] after[i]).1
                    > 0 by {
                    assert(after[i].1 >= counts[i].1);
                }
            } else {
                assert(after.drop_last() =~= counts);
                assert forall|i: int, j: int| 0 <= i < j < after.len() implies (
                #[trigger] after[i]).0 != (#[trigger] after[j]).0 by {
                    if j < counts.len() {
                        assert(after[i] == counts[i]);
                        assert(after[j] == counts[j]);
                    } else {
                        assert(after[i] == counts[i]);
                    }
                }
                assert forall|i: int| 0 <= i < after.len() implies (#[trigger] after[i]).1
                    > 0 by {
                    if i < counts.len() {
                        assert(after[i] == counts[i]);
                    }
                }
            }
        },
    }
}

/// Recording keeps the tallies consistent.
pub proof fn lemma_recorded_consistent(seen: InsightView, visits: Seq<Visit>)
    requires
        consistent(seen),
    ensures
        consistent(recorded(seen, visits)),
    decreases visits.len(),
{
    if visits.len() > 0 {
        lemma_recorded_consistent(seen, visits.drop_last());
        lemma_record_consistent(recorded(seen, visits.drop_last()), visits.last());
    }
}

/// Where `last_index_of` points, `c` stands, and nowhere after it.
pub proof fn lemma_last_index_of_shape(s: Seq<char>, c: char)
    ensures
        -1 <= last_index_of(s, c) < s.len(),
        last_index_of(s, c) >= 0 ==> s[last_index_of(s, c)] == c,
        forall|j: int| last_index_of(s, c) < j < s.len() ==> #[trigger] s[j] != c,
    decreases s.len(),
{
    if s.len() > 0 && s.last() != c {
        let front = s.drop_last();
        lemma_last_index_of_shape(front, c);
        assert forall|j: int| last_index_of(s, c) < j < s.len() implies #[trigger] s[j] != c by {
            if j < front.len() {
                assert(front[j] == s[j]);
            }
        }
    }
}

/// What the extension of a name is: where there is one, the name is a
/// non-empty stem, a dot and the extension, and the extension holds no dot.
/// There is none exactly where no dot stands after the first character.
pub proof fn law_extension_follows_the_last_dot(name: Seq<char>)
    ensures
        match extension(name) {
            Some(ext) => {
                &&& ext.len() + 2 <= name.len()
                &&& name == name.subrange(0, name.len() - ext.len() - 1) + seq!['.'] + ext
                &&& forall|i: int| 0 <= i < ext.len() ==> #[trigger] ext[i] != '.'
            },
            None => forall|i: int| 0 < i < name.len() ==> #[trigger] name[i] != '.',
        },
{
    lemma_last_index_of_shape(name, '.');
    let dot = last_index_of(name, '.');
    if dot > 0 {
        let ext = name.subrange(dot + 1, name.len() as int);
        assert(name =~= name.subrange(0, dot) + seq!['.'] + ext);
        assert forall|i: int| 0 <= i < ext.len() implies #[trigger] ext[i] != '.' by {
            assert(ext[i] == name[dot + 1 + i]);
        }
    }
}

/// The last `c` of `s` stands at `at`.
pub proof fn lemma_last_index_of(s: Seq<char>, c: char, at: int)
    requires
        -1 <= at < s.len(),
        at >= 0 ==> s[at] == c,
        forall|j: int| at < j < s.len() ==> s[j] != c,
    ensures
        last_index_of(s, c) == at,
    decreases s.len(),
{
    if s.len() > 0 && at < s.len() - 1 {
        lemma_last_index_of(s.drop_last(), c, at);
    }
}

/// Whether the walk passes over an entry of this name.
pub fn is_skipped_name(name: &str) -> (skipped: bool)
    ensures
        skipped == is_skipped(name@),
{
    let v = chars_of(name);
    if v.len() > 0 && v[0] == '.' {
        return true;
    }
    name.eq("target") || name.eq("node_modules") || name.eq("__pycache__")
}

/// Whether a file of this name is listed among the dependency files.
pub fn is_manifest_name(name: &str) -> (listed: bool)
    ensures
        listed == is_manifest(name@),
{
    name.eq("Cargo.toml") || name.eq("package.json") || name.eq("requirements.txt") || name.eq(
        "go.mod",
    ) || name.eq("pom.xml") || name.eq("Gemfile") || name.eq("composer.json")
}

/// The extension of a file name, where it has one.
pub fn extension_of(name: &str) -> (ext: Option<String>)
    ensures
        match ext {
            Some(e) => extension(name@) == Some(e@),
            None => extension(name@) is None,
        },
{
    let v = chars_of(name);
    let mut i: usize = v.len();
    while i > 0 && v[i - 1] != '.'
        invariant
            i <= v.len(),
            forall|j: int| i <= j < v.len() ==> v@[j] != '.',
        decreases i,
    {
        i -= 1;
    }
    proof {
        lemma_last_index_of(v@, '.', i - 1);
    }
    if i > 1 {
        Some(text_of(&v, i, v.len()))
    } else {
        None
    }
}

/// The name of the tally that a file of this name counts for.
pub fn bucket_of(name: &str) -> (key: String)
    ensures
        key@ == bucket(name@),
{
    match extension_of(name) {
        Some(ext) => ext,
        None => "no-ext".to_owned(),
    }
}

/// Counts one more file of extension `key`.
fn bump(counts: &mut Vec<(String, usize)>, key: String)
    requires
        forall|i: int| 0 <= i < old(counts).len() ==> (#[trigger] old(counts)[i]).1 < usize::MAX,
    ensures
        counts_view(final(counts)@) == bumped(counts_view(old(counts)@), key@),
{
    let ghost before = counts_view(counts@);
    let mut i: usize = 0;
    while i < counts.len()
        invariant
            i <= counts.len(),
            counts@ == old(counts)@,
            before == counts_view(counts@),
            forall|j: int| 0 <= j < counts.len() ==> (#[trigger] counts[j]).1 < usize::MAX,
            forall|j: int| 0 <= j < i ==> (#[trigger] before[j]).0 != key@,
        decreases counts.len() - i,
    {
        if counts[i].0 == key {
            proof {
                lemma_index_of_found(before, key@, i as int);
                assert(counts[i as int].1 < usize::MAX);
            }
            counts[i].1 += 1;
            assert(counts_view(counts@) =~= bumped(before, key@));
            return;
        }
        assert(before[i as int].0 != key@);
        i += 1;
    }
    proof {
        lemma_index_of_absent(before, key@);
    }
    counts.push((key, 1));
    assert(counts_view(counts@) =~= bumped(before, key@));
}

/// Records the visit of a directory found at `depth`.
pub(crate) fn record_dir(insight: &mut ProjectInsight, name: &str, depth: usize)
    ensures
        final(insight)@ == record(old(insight)@, Visit::Dir { name: name@, depth: depth as nat }),
{
    let mut line = repeat("  ", depth);
    line.append(name);
    line.append("/");
    proof {
        lemma_texts_push(insight.structure@, line);
    }
    insight.structure.push(line);
}

/// Records the visit of a file found at `depth`.
pub(crate) fn record_file(insight: &mut ProjectInsight, name: &str, depth: usize)
    requires
        old(insight).wf(),
        old(insight).total_files < usize::MAX,
    ensures
        final(insight)@ == record(old(insight)@, Visit::File { name: name@, depth: depth as nat }),
        final(insight).wf(),
{
    proof {
        let counts = insight@.file_counts;
        assert forall|i: int| 0 <= i < insight.file_counts.len() implies (
        #[trigger] insight.file_counts[i]).1 < usize::MAX by {
            lemma_count_sum_update(counts, i, 0);
            assert(counts[i].1 == insight.file_counts[i].1);
        }
        lemma_record_consistent(insight@, Visit::File { name: name@, depth: depth as nat });
    }
    insight.total_files += 1;
    bump(&mut insight.file_counts, bucket_of(name));
    if is_manifest_name(name) {
        let kept = name.to_owned();
        proof {
            lemma_texts_push(insight.dependencies@, kept);
        }
        insight.dependencies.push(kept);
    }
    if depth < 2 {
        let mut line = repeat("  ", depth);
        line.append(name);
        proof {
            lemma_texts_push(insight.structure@, line);
        }
        insight.structure.push(line);
    }
}

/// Walks the directory `dir`, which lies at `depth`, and records what is
/// visited: every entry that is not skipped, and under each directory what it
/// holds, down to the directories at `max_depth`.
///
/// The walk is complete unless the files are more than `usize` can count.
/// Then it stops, `false` comes back and the summary holds only a part.
pub fn scan_directory(
    dir: &Vec<DirEntry>,
    depth: usize,
    max_depth: usize,
    insight: &mut ProjectInsight,
) -> (complete: bool)
    requires
        old(insight).wf(),
    ensures
        complete == (old(insight).total_files + files_among(
            walk(dir@, depth as nat, max_depth as nat),
        ) <= usize::MAX),
        complete ==> final(insight)@ == recorded(
            old(insight)@,
            walk(dir@, depth as nat, max_depth as nat),
        ),
        complete ==> final(insight).wf(),
    decreases max_depth + 1 - depth,
{
    if depth > max_depth {
        return true;
    }
    let ghost start = insight@;
    let ghost d = depth as nat;
    let ghost m = max_depth as nat;
    let mut i: usize = 0;
    while i < dir.len()
        invariant
            i <= dir.len(),
            depth <= max_depth,
            d == depth as nat,
            m == max_depth as nat,
            insight.wf(),
            consistent(start),
            start == old(insight)@,
            insight@ == recorded(start, walk(dir@.take(i as int), d, m)),
        decreases dir.len() - i,
    {
        let entry = &dir[i];
        let ghost done = walk(dir@.take(i as int), d, m);
        let ghost here = walk_entry(dir@[i as int], d, m);
        proof {
            lemma_walk_step(dir@, i as int, d, m);
            lemma_walk_prefix_files(dir@, i + 1, d, m);
            lemma_files_among_concat(done, here);
            lemma_recorded_totals(start, done);
            lemma_recorded_concat(start, done, here);
        }
        if !is_skipped_name(entry.name.as_str()) {
            match &entry.kind {
                EntryKind::File => {
                    proof {
                        lemma_recorded_one(
                            recorded(start, done),
                            Visit::File { name: entry.name@, depth: d },
                        );
                    }
                    if insight.total_files == usize::MAX {
                        assert(here =~= seq![Visit::File { name: entry.name@, depth: d }]);
                        return false;
                    }
                    record_file(insight, entry.name.as_str(), depth);
                },
                EntryKind::Dir(children) => {
                    let ghost visit = Visit::Dir { name: entry.name@, depth: d };
                    let ghost head = seq![visit];
                    let ghost below = walk(children@, d + 1, m);
                    proof {
                        assert(here == head + below);
                        lemma_recorded_one(recorded(start, done), visit);
                        lemma_files_among_concat(head, below);
                        lemma_recorded_concat(recorded(start, done), head, below);
                        lemma_record_consistent(recorded(start, done), visit);
                    }
                    record_dir(insight, entry.name.as_str(), depth);
                    if depth < max_depth {
                        if !scan_directory(children, depth + 1, max_depth, insight) {
                            return false;
                        }
                    } else {
                        assert(recorded(record(recorded(start, done), visit), below) == record(
                            recorded(start, done),
                            visit,
                        ));
                    }
                },
            }
        } else {
            assert(recorded(recorded(start, done), here) == recorded(start, done));
        }
        i += 1;
    }
    proof {
        assert(dir@.take(dir.len() as int) =~= dir@);
        lemma_recorded_totals(start, walk(dir@, d, m));
    }
    true
}

/// The two directories show the same entries, of the same names and kinds and
/// in the same order, down to `levels` levels below them. What lies deeper
/// may differ.
pub open spec fn agree_down_to(a: Seq<DirEntry>, b: Seq<DirEntry>, levels: nat) -> bool
    decreases levels,
{
    &&& a.len() == b.len()
    &&& forall|i: int|
        0 <= i < a.len() ==> {
            &&& (#[trigger] a[i]).name@ == b[i].name@
            &&& match (a[i].kind, b[i].kind) {
                (EntryKind::File, EntryKind::File) => true,
                (EntryKind::Dir(x), EntryKind::Dir(y)) => levels > 0 ==> agree_down_to(
                    x@,
                    y@,
                    (levels - 1) as nat,
                ),
                _ => false,
            }
        }
}

/// The depth bound: what lies in directories deeper than `max_depth` never
/// shows. Two trees that agree down to the bound give the same walk, and so
/// the same summary.
pub proof fn law_depth_bound(
    a: Seq<DirEntry>,
    b: Seq<DirEntry>,
    depth: nat,
    max_depth: nat,
    seen: InsightView,
)
    requires
        depth <= max_depth,
        agree_down_to(a, b, (max_depth - depth) as nat),
    ensures
        walk(a, depth, max_depth) == walk(b, depth, max_depth),
        recorded(seen, walk(a, depth, max_depth)) == recorded(seen, walk(b, depth, max_depth)),
    decreases max_depth - depth, a.len(),
{
    if a.len() > 0 {
        let levels = (max_depth - depth) as nat;
        let last = a.len() - 1;
        let x = a[last];
        let y = b[last];
        let front_a = a.drop_last();
        let front_b = b.drop_last();
        assert(x.name@ == y.name@);
        assert forall|i: int| 0 <= i < front_a.len() implies {
            &&& (#[trigger] front_a[i]).name@ == front_b[i].name@
            &&& match (front_a[i].kind, front_b[i].kind) {
                (EntryKind::File, EntryKind::File) => true,
                (EntryKind::Dir(x), EntryKind::Dir(y)) => levels > 0 ==> agree_down_to(
                    x@,
                    y@,
                    (levels - 1) as nat,
                ),
                _ => false,
            }
        } by {
            assert(front_a[i] == a[i]);
            assert(front_b[i] == b[i]);
        }
        assert(agree_down_to(front_a, front_b, levels));
        law_depth_bound(front_a, front_b, depth, max_depth, seen);
        match (x.kind, y.kind) {
            (EntryKind::Dir(p), EntryKind::Dir(q)) => {
                if depth < max_depth {
                    assert(agree_down_to(p@, q@, (levels - 1) as nat));
                    law_depth_bound(p@, q@, depth + 1, max_depth, seen);
                } else {
                    assert(walk(p@, depth + 1, max_depth) == walk(q@, depth + 1, max_depth));
                }
            },
            _ => {},
        }
        assert(walk_entry(x, depth, max_depth) == walk_entry(y, depth, max_depth));
        assert(a.last() == x && b.last() == y);
    } else {
        assert(b.len() == 0);
    }
}

/// The skip list: an entry whose name is hidden or one of `target`,
/// `node_modules`, `__pycache__` leaves no trace, whatever it is and
/// whatever lies in it. The walk, and so the summary, is the same without it.
pub proof fn law_skipped_entries_leave_no_trace(
    before: Seq<DirEntry>,
    skipped: DirEntry,
    after: Seq<DirEntry>,
    depth: nat,
    max_depth: nat,
    seen: InsightView,
)
    requires
        is_skipped(skipped.name@),
    ensures
        walk(before + seq![skipped] + after, depth, max_depth) == walk(
            before + after,
            depth,
            max_depth,
        ),
        recorded(seen, walk(before + seq![skipped] + after, depth, max_depth)) == recorded(
            seen,
            walk(before + after, depth, max_depth),
        ),
{
    let one = seq![skipped];
    lemma_walk_concat(before + one, after, depth, max_depth);
    lemma_walk_concat(before, one, depth, max_depth);
    lemma_walk_concat(before, after, depth, max_depth);
    assert(one.drop_last() =~= Seq::<DirEntry>::empty());
    assert(one.last() == skipped);
    assert(walk(one.drop_last(), depth, max_depth) =~= Seq::<Visit>::empty());
    assert(walk_entry(skipped, depth, max_depth) =~= Seq::<Visit>::empty());
    assert(walk(one, depth, max_depth) =~= Seq::<Visit>::empty());
    assert(walk(before, depth, max_depth) + Seq::<Visit>::empty() =~= walk(
        before,
        depth,
        max_depth,
    ));
}

/// The tally that `counts` holds for the extension `key`; zero where it
/// holds none.
pub open spec fn tally_of(counts: Seq<(Seq<char>, nat)>, key: Seq<char>) -> nat {
    let at = index_of(counts, key);
    if at >= 0 {
        counts[at].1
    } else {
        0
    }
}

/// The number of files among the visits that count for the extension `key`.
pub open spec fn files_of_type(visits: Seq<Visit>, key: Seq<char>) -> nat
    decreases visits.len(),
{
    if visits.len() == 0 {
        0
    } else {
        files_of_type(visits.drop_last(), key) + match visits.last() {
            Visit::File { name, depth } => if bucket(name) == key {
                1nat
            } else {
                0nat
            },
            Visit::Dir { name, depth } => 0nat,
        }
    }
}

/// Setting the tally at `at`, under the extension that stands there, moves
/// no extension.
pub proof fn lemma_index_of_update(
    counts: Seq<(Seq<char>, nat)>,
    at: int,
    tally: nat,
    key: Seq<char>,
)
    requires
        0 <= at < counts.len(),
    ensures
        index_of(counts.update(at, (counts[at].0, tally)), key) == index_of(counts, key),
    decreases counts.len(),
{
    let changed = counts.update(at, (counts[at].0, tally));
    if at == counts.len() - 1 {
        assert(changed.drop_last() =~= counts.drop_last());
    } else {
        lemma_index_of_update(counts.drop_last(), at, tally, key);
        assert(changed.drop_last() =~= counts.drop_last().update(at, (counts[at].0, tally)));
    }
}

/// One more file of extension `counted` raises the tally of that extension
/// by one and leaves every other tally as it is.
pub proof fn lemma_bumped_tally(counts: Seq<(Seq<char>, nat)>, counted: Seq<char>, key: Seq<char>)
    ensures
        tally_of(bumped(counts, counted), key) == tally_of(counts, key) + if counted == key {
            1nat
        } else {
            0nat
        },
{
    let at = index_of(counts, counted);
    lemma_index_of_shape(counts, counted);
    lemma_index_of_shape(counts, key);
    if at >= 0 {
        lemma_index_of_update(counts, at, counts[at].1 + 1, key);
    } else {
        assert(bumped(counts, counted).drop_last() =~= counts);
    }
}

/// The tallies count the files by extension: after a run of visits the tally
/// of each extension has grown by the number of files visited that have it.
pub proof fn law_tallies_count_files_by_extension(
    seen: InsightView,
    visits: Seq<Visit>,
    key: Seq<char>,
)
    ensures
        tally_of(recorded(seen, visits).file_counts, key) == tally_of(seen.file_counts, key)
            + files_of_type(visits, key),
    decreases visits.len(),
{
    if visits.len() > 0 {
        let before = recorded(seen, visits.drop_last());
        law_tallies_count_files_by_extension(seen, visits.drop_last(), key);
        match visits.last() {
            Visit::File { name, depth } => {
                lemma_bumped_tally(before.file_counts, bucket(name), key);
            },
            Visit::Dir { name, depth } => {},
        }
    }
}

/// The summary counts exactly the files that the walk visits, and its
/// tallies are consistent.
pub proof fn law_summary_counts_visited_files(entries: Seq<DirEntry>, depth: nat, max_depth: nat)
    ensures
        recorded(blank(Seq::empty()), walk(entries, depth, max_depth)).total_files == files_among(
            walk(entries, depth, max_depth),
        ),
        consistent(recorded(blank(Seq::empty()), walk(entries, depth, max_depth))),
{
    lemma_recorded_totals(blank(Seq::empty()), walk(entries, depth, max_depth));
    lemma_recorded_consistent(blank(Seq::empty()), walk(entries, depth, max_depth));
}

/// The summary of a project of which nothing has been visited yet.
pub open spec fn blank(project_type: Seq<char>) -> InsightView {
    InsightView {
        project_type,
        file_counts: Seq::empty(),
        total_files: 0,
        dependencies: Seq::empty(),
        structure: Seq::empty(),
    }
}

/// The kind of project that the manifest files found at its root point to.
/// Where several are present, the first of this order decides.
pub open spec fn project_type_of(present: Seq<Seq<char>>) -> Seq<char> {
    if present.contains("Cargo.toml"@) {
        "Rust"@
    } else if present.contains("package.json"@) {
        "Node.js/JavaScript"@
    } else if present.contains("requirements.txt"@) || present.contains("pyproject.toml"@) {
        "Python"@
    } else if present.contains("go.mod"@) {
        "Go"@
    } else if present.contains("pom.xml"@) {
        "Java (Maven)"@
    } else if present.contains("build.gradle"@) {
        "Java (Gradle)"@
    } else if present.contains("Gemfile"@) {
        "Ruby"@
    } else if present.contains("composer.json"@) {
        "PHP"@
    } else {
        "Mixed/Unknown"@
    }
}

/// The file names whose presence at the root decides the project type, in the
/// order in which they decide.
pub open spec fn probe_list() -> Seq<Seq<char>> {
    seq![
        "Cargo.toml"@,
        "package.json"@,
        "requirements.txt"@,
        "pyproject.toml"@,
        "go.mod"@,
        "pom.xml"@,
        "build.gradle"@,
        "Gemfile"@,
        "composer.json"@,
    ]
}

/// How deep the walk of a project goes.
pub const MAX_DEPTH: usize = 3;

/// The file names to look for at the root of a project.
pub fn probe_names() -> (names: Vec<String>)
    ensures
        texts(names@) == probe_list(),
{
    let mut names: Vec<String> = Vec::new();
    names.push("Cargo.toml".to_owned());
    names.push("package.json".to_owned());
    names.push("requirements.txt".to_owned());
    names.push("pyproject.toml".to_owned());
    names.push("go.mod".to_owned());
    names.push("pom.xml".to_owned());
    names.push("build.gradle".to_owned());
    names.push("Gemfile".to_owned());
    names.push("composer.json".to_owned());
    assert(texts(names@) =~= probe_list());
    names
}

/// Whether `name` is among `present`.
fn has_name(present: &Vec<String>, name: &str) -> (found: bool)
    ensures
        found == texts(present@).contains(name@),
{
    let mut i: usize = 0;
    while i < present.len()
        invariant
            i <= present.len(),
            forall|j: int| 0 <= j < i ==> texts(present@)[j] != name@,
        decreases present.len() - i,
    {
        if present[i].as_str().eq(name) {
            assert(texts(present@)[i as int] == name@);
            return true;
        }
        i += 1;
    }
    false
}

/// The kind of project, from the names of the files present at its root.
pub fn detect_project_type(present: &Vec<String>) -> (tag: String)
    ensures
        tag@ == project_type_of(texts(present@)),
{
    if has_name(present, "Cargo.toml") {
        "Rust".to_owned()
    } else if has_name(present, "package.json") {
        "Node.js/JavaScript".to_owned()
    } else if has_name(present, "requirements.txt") || has_name(present, "pyproject.toml") {
        "Python".to_owned()
    } else if has_name(present, "go.mod") {
        "Go".to_owned()
    } else if has_name(present, "pom.xml") {
        "Java (Maven)".to_owned()
    } else if has_name(present, "build.gradle") {
        "Java (Gradle)".to_owned()
    } else if has_name(present, "Gemfile") {
        "Ruby".to_owned()
    } else if has_name(present, "composer.json") {
        "PHP".to_owned()
    } else {
        "Mixed/Unknown".to_owned()
    }
}

impl ProjectInsight {
    /// The summary of a project of this type of which nothing has been
    /// visited yet.
    pub fn new(project_type: String) -> (insight: ProjectInsight)
        ensures
            insight@ == blank(project_type@),
            insight.wf(),
    {
        let insight = ProjectInsight {
            project_type,
            file_counts: Vec::new(),
            total_files: 0,
            dependencies: Vec::new(),
            structure: Vec::new(),
        };
        assert(insight@ =~= blank(project_type@));
        insight
    }
}

/// The summary of the project whose root directory holds `root`, and at whose
/// root the files named in `present` were found: its type, and what a walk
/// down to `MAX_DEPTH` visits. There is none where the files are more than
/// `usize` can count.
pub fn analyze_project(present: &Vec<String>, root: &Vec<DirEntry>) -> (summary: Option<
    ProjectInsight,
>)
    ensures
        match summary {
            Some(insight) => {
                &&& files_among(walk(root@, 0, MAX_DEPTH as nat)) <= usize::MAX
                &&& insight@ == recorded(
                    blank(project_type_of(texts(present@))),
                    walk(root@, 0, MAX_DEPTH as nat),
                )
                &&& insight.wf()
            },
            None => files_among(walk(root@, 0, MAX_DEPTH as nat)) > usize::MAX,
        },
{
    let mut insight = ProjectInsight::new(detect_project_type(present));
    if scan_directory(root, 0, MAX_DEPTH, &mut insight) {
        Some(insight)
    } else {
        None
    }
}

} // verus!
