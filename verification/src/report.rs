//! The printed form of a project summary: a page of lines, with the file
//! types ranked by the number of files.

use crate::insight::{counts_view, InsightView, ProjectInsight};
use crate::text::{decimal, decimal_text, lemma_texts_push, repeat, repeated, texts};
use vstd::prelude::*;

verus! {

/// How many file types the page shows.
pub const SHOWN_TYPES: usize = 10;

/// The position of the largest tally; of several that are largest, the first.
pub open spec fn leader(counts: Seq<(Seq<char>, nat)>) -> int
    decreases counts.len(),
{
    if counts.len() <= 1 {
        0
    } else {
        let before = leader(counts.drop_last());
        if counts.last().1 > counts[before].1 {
            counts.len() - 1
        } else {
            before
        }
    }
}

/// The `limit` largest tallies, largest first; equal tallies in the order in
/// which they stand in `counts`.
pub open spec fn ranked(counts: Seq<(Seq<char>, nat)>, limit: nat) -> Seq<(Seq<char>, nat)>
    decreases limit,
{
    if limit == 0 || counts.len() == 0 {
        Seq::empty()
    } else {
        let at = leader(counts);
        seq![counts[at]] + ranked(counts.remove(at), (limit - 1) as nat)
    }
}

/// A line of `width` equals signs.
pub open spec fn rule(width: nat) -> Seq<char> {
    repeated("="@, width)
}

/// How an extension is shown.
pub open spec fn extension_label(ext: Seq<char>) -> Seq<char> {
    if ext == "no-ext"@ {
        "no extension"@
    } else {
        "."@ + ext
    }
}

/// The line for one file type.
pub open spec fn file_type_line(entry: (Seq<char>, nat)) -> Seq<char> {
    "  "@ + extension_label(entry.0) + " ("@ + decimal(entry.1) + " files)"@
}

/// The line for one dependency file.
pub open spec fn dependency_line(name: Seq<char>) -> Seq<char> {
    "  "@ + name
}

/// A titled part of the page: an empty line, the title and the body. A part
/// without a body is left out.
pub open spec fn section(title: Seq<char>, body: Seq<Seq<char>>) -> Seq<Seq<char>> {
    if body.len() == 0 {
        Seq::empty()
    } else {
        seq![Seq::empty(), title] + body
    }
}

/// The head of the page: the banner, the project type and the file total.
pub open spec fn heading(seen: InsightView) -> Seq<Seq<char>> {
    seq![
        Seq::empty(),
        rule(60),
        "\u{1F50D} PROJECT INSIGHT "@ + rule(40),
        rule(60),
        Seq::empty(),
        "\u{1F4CC} Project Type: "@ + seen.project_type,
        Seq::empty(),
        "\u{1F4CA} Statistics: Total files: "@ + decimal(seen.total_files),
    ]
}

/// The page for a summary, line by line.
pub open spec fn report(seen: InsightView) -> Seq<Seq<char>> {
    heading(seen) + section(
        "\u{1F4C1} File Types:"@,
        ranked(seen.file_counts, SHOWN_TYPES as nat).map_values(
            |e: (Seq<char>, nat)| file_type_line(e),
        ),
    ) + section(
        "\u{1F4E6} Dependency Files:"@,
        seen.dependencies.map_values(|d: Seq<char>| dependency_line(d)),
    ) + section("\u{1F333} Project Structure:"@, seen.structure) + seq![
        Seq::empty(),
        rule(60),
        Seq::empty(),
    ]
}

/// The leader is a position of the largest tally, and no earlier tally is as
/// large.
pub proof fn lemma_leader(counts: Seq<(Seq<char>, nat)>)
    requires
        counts.len() > 0,
    ensures
        0 <= leader(counts) < counts.len(),
        forall|j: int|
            0 <= j < counts.len() ==> (#[trigger] counts[j]).1 <= counts[leader(counts)].1,
        forall|j: int|
            0 <= j < leader(counts) ==> (#[trigger] counts[j]).1 < counts[leader(counts)].1,
    decreases counts.len(),
{
    if counts.len() > 1 {
        let front = counts.drop_last();
        lemma_leader(front);
        let before = leader(front);
        assert(front[before] == counts[before]);
        assert forall|j: int| 0 <= j < counts.len() implies (#[trigger] counts[j]).1
            <= counts[leader(counts)].1 by {
            if j < front.len() {
                assert(front[j] == counts[j]);
            }
        }
        assert forall|j: int| 0 <= j < leader(counts) implies (#[trigger] counts[j]).1
            < counts[leader(counts)].1 by {
            assert(front[j] == counts[j]);
        }
    }
}

/// What the ranking shows: as many tallies as the limit allows, each taken
/// from `counts`, the larger before the smaller, and every tally larger than
/// the last one shown is among them.
pub proof fn law_ranked_shows_the_largest(counts: Seq<(Seq<char>, nat)>, limit: nat)
    ensures
        ranked(counts, limit).len() == if limit <= counts.len() {
            limit
        } else {
            counts.len()
        },
        forall|i: int|
            0 <= i < ranked(counts, limit).len() ==> counts.contains(
                #[trigger] ranked(counts, limit)[i],
            ),
        forall|i: int, j: int|
            0 <= i <= j < ranked(counts, limit).len() ==> (#[trigger] ranked(counts, limit)[i]).1
                >= (#[trigger] ranked(counts, limit)[j]).1,
        forall|k: int|
            0 <= k < counts.len() && ranked(counts, limit).len() > 0 && (#[trigger] counts[k]).1
                > ranked(counts, limit).last().1 ==> ranked(counts, limit).contains(counts[k]),
    decreases limit,
{
    let shown = ranked(counts, limit);
    if limit > 0 && counts.len() > 0 {
        let at = leader(counts);
        lemma_leader(counts);
        let rest = counts.remove(at);
        let below = ranked(rest, (limit - 1) as nat);
        law_ranked_shows_the_largest(rest, (limit - 1) as nat);
        assert(shown == seq![counts[at]] + below);
        assert(shown[0] == counts[at]);
        assert forall|i: int| 0 <= i < shown.len() implies counts.contains(
            #[trigger] shown[i],
        ) by {
            if i > 0 {
                assert(shown[i] == below[i - 1]);
                let w = choose|w: int| 0 <= w < rest.len() && rest[w] == below[i - 1];
                if w < at {
                    assert(counts[w] == rest[w]);
                } else {
                    assert(counts[w + 1] == rest[w]);
                }
            }
        }
        assert forall|i: int, j: int| 0 <= i <= j < shown.len() implies (#[trigger] shown[i]).1
            >= (#[trigger] shown[j]).1 by {
            if i > 0 {
                assert(shown[i] == below[i - 1]);
                assert(shown[j] == below[j - 1]);
            } else if j > 0 {
                assert(counts.contains(shown[j]));
            }
        }
        assert forall|k: int|
            0 <= k < counts.len() && shown.len() > 0 && (#[trigger] counts[k]).1
                > shown.last().1 implies shown.contains(counts[k]) by {
            if k == at {
                assert(shown[0] == counts[k]);
            } else {
                let w = if k < at {
                    k
                } else {
                    k - 1
                };
                assert(rest[w] == counts[k]);
                if below.len() > 0 {
                    assert(shown.last() == below.last());
                    assert(below.contains(rest[w]));
                    let p = choose|p: int| 0 <= p < below.len() && below[p] == rest[w];
                    assert(shown[p + 1] == counts[k]);
                }
            }
        }
    }
}

/// The position of the largest tally; of several that are largest, the first.
fn leader_of(counts: &Vec<(String, usize)>) -> (at: usize)
    requires
        counts.len() > 0,
    ensures
        at == leader(counts_view(counts@)),
        at < counts.len(),
{
    let ghost all = counts_view(counts@);
    let mut best: usize = 0;
    let mut i: usize = 1;
    assert(all.take(1).len() == 1);
    while i < counts.len()
        invariant
            1 <= i <= counts.len(),
            best < i,
            all == counts_view(counts@),
            best == leader(all.take(i as int)),
        decreases counts.len() - i,
    {
        proof {
            assert(all.take(i + 1).drop_last() =~= all.take(i as int));
            assert(all.take(i as int)[best as int] == all[best as int]);
            assert(all.take(i + 1)[best as int] == all[best as int]);
        }
        if counts[i].1 > counts[best].1 {
            best = i;
        }
        i += 1;
    }
    assert(all.take(counts.len() as int) =~= all);
    best
}

/// A copy of the tallies.
fn copy_counts(counts: &Vec<(String, usize)>) -> (copy: Vec<(String, usize)>)
    ensures
        counts_view(copy@) == counts_view(counts@),
{
    let mut copy: Vec<(String, usize)> = Vec::new();
    let mut i: usize = 0;
    while i < counts.len()
        invariant
            i <= counts.len(),
            counts_view(copy@) == counts_view(counts@).take(i as int),
        decreases counts.len() - i,
    {
        let ghost before = counts_view(copy@);
        let name = counts[i].0.clone();
        copy.push((name, counts[i].1));
        assert(counts_view(copy@) =~= before.push(counts_view(counts@)[i as int]));
        i += 1;
    }
    assert(counts_view(counts@).take(counts.len() as int) =~= counts_view(counts@));
    copy
}

/// The `limit` largest tallies, largest first.
pub fn top_counts(counts: &Vec<(String, usize)>, limit: usize) -> (top: Vec<(String, usize)>)
    ensures
        counts_view(top@) == ranked(counts_view(counts@), limit as nat),
{
    let mut pool = copy_counts(counts);
    let mut top: Vec<(String, usize)> = Vec::new();
    let ghost goal = ranked(counts_view(counts@), limit as nat);
    assert(Seq::<(Seq<char>, nat)>::empty() + goal =~= goal);
    while top.len() < limit && pool.len() > 0
        invariant
            top.len() <= limit,
            goal == counts_view(top@) + ranked(counts_view(pool@), (limit - top.len()) as nat),
        decreases pool.len(),
    {
        let ghost pool_before = counts_view(pool@);
        let ghost top_before = counts_view(top@);
        let at = leader_of(&pool);
        let entry = pool.remove(at);
        top.push(entry);
        proof {
            assert(counts_view(pool@) =~= pool_before.remove(at as int));
            assert(counts_view(top@) =~= top_before.push(pool_before[at as int]));
            let below = ranked(counts_view(pool@), (limit - top.len()) as nat);
            assert(top_before + (seq![pool_before[at as int]] + below) =~= counts_view(top@)
                + below);
        }
    }
    assert(counts_view(top@) + Seq::<(Seq<char>, nat)>::empty() =~= counts_view(top@));
    top
}

/// Adds `line` at the end of `lines`.
fn push_line(lines: &mut Vec<String>, line: String)
    ensures
        texts(final(lines)@) == texts(old(lines)@).push(line@),
{
    proof {
        lemma_texts_push(lines@, line);
    }
    lines.push(line);
}

/// Adds a titled part to the page, where it has a body.
fn push_section(lines: &mut Vec<String>, title: &str, body: &Vec<String>)
    ensures
        texts(final(lines)@) == texts(old(lines)@) + section(title@, texts(body@)),
{
    let ghost before = texts(lines@);
    if body.len() == 0 {
        assert(before + Seq::<Seq<char>>::empty() =~= before);
        return;
    }
    push_line(lines, String::new());
    push_line(lines, title.to_owned());
    let mut i: usize = 0;
    while i < body.len()
        invariant
            i <= body.len(),
            texts(lines@) == before + seq![Seq::empty(), title@] + texts(body@).take(i as int),
        decreases body.len() - i,
    {
        push_line(lines, body[i].clone());
        i += 1;
        assert(texts(lines@) =~= before + seq![Seq::empty(), title@] + texts(body@).take(
            i as int,
        ));
    }
    assert(texts(body@).take(body.len() as int) =~= texts(body@));
    assert(before + seq![Seq::empty(), title@] + texts(body@) =~= before + section(
        title@,
        texts(body@),
    ));
}

/// The line for one file type.
fn file_type_text(ext: &str, count: usize) -> (line: String)
    ensures
        line@ == file_type_line((ext@, count as nat)),
{
    let mut line = "  ".to_owned();
    if ext.eq("no-ext") {
        line.append("no extension");
    } else {
        line.append(".");
        line.append(ext);
    }
    line.append(" (");
    line.append(decimal_text(count as u64).as_str());
    line.append(" files)");
    line
}

/// The page for a summary, line by line: the banner, the project type, the
/// file total, the ten file types with the most files, the dependency files
/// and the outline.
pub fn print_insight(insight: &ProjectInsight) -> (lines: Vec<String>)
    ensures
        texts(lines@) == report(insight@),
{
    let mut lines: Vec<String> = Vec::new();
    let bar = repeat("=", 60);
    let mut banner = "\u{1F50D} PROJECT INSIGHT ".to_owned();
    banner.append(repeat("=", 40).as_str());
    let mut kind = "\u{1F4CC} Project Type: ".to_owned();
    kind.append(insight.project_type.as_str());
    let mut total = "\u{1F4CA} Statistics: Total files: ".to_owned();
    total.append(decimal_text(insight.total_files as u64).as_str());
    push_line(&mut lines, String::new());
    push_line(&mut lines, bar.clone());
    push_line(&mut lines, banner);
    push_line(&mut lines, bar.clone());
    push_line(&mut lines, String::new());
    push_line(&mut lines, kind);
    push_line(&mut lines, String::new());
    push_line(&mut lines, total);
    assert(texts(lines@) =~= heading(insight@));

    let top = top_counts(&insight.file_counts, SHOWN_TYPES);
    let ghost shown = ranked(insight@.file_counts, SHOWN_TYPES as nat);
    let mut types: Vec<String> = Vec::new();
    let mut i: usize = 0;
    while i < top.len()
        invariant
            i <= top.len(),
            counts_view(top@) == shown,
            texts(types@) == shown.map_values(|e: (Seq<char>, nat)| file_type_line(e)).take(
                i as int,
            ),
        decreases top.len() - i,
    {
        assert(shown[i as int] == (top[i as int].0@, top[i as int].1 as nat));
        let line = file_type_text(top[i].0.as_str(), top[i].1);
        push_line(&mut types, line);
        i += 1;
        assert(texts(types@) =~= shown.map_values(|e: (Seq<char>, nat)| file_type_line(e)).take(
            i as int,
        ));
    }
    assert(texts(types@) =~= shown.map_values(|e: (Seq<char>, nat)| file_type_line(e)));
    push_section(&mut lines, "\u{1F4C1} File Types:", &types);

    let mut deps: Vec<String> = Vec::new();
    let mut j: usize = 0;
    while j < insight.dependencies.len()
        invariant
            j <= insight.dependencies.len(),
            texts(deps@) == insight@.dependencies.map_values(
                |d: Seq<char>| dependency_line(d),
            ).take(j as int),
        decreases insight.dependencies.len() - j,
    {
        let mut line = "  ".to_owned();
        line.append(insight.dependencies[j].as_str());
        push_line(&mut deps, line);
        j += 1;
        assert(texts(deps@) =~= insight@.dependencies.map_values(
            |d: Seq<char>| dependency_line(d),
        ).take(j as int));
    }
    assert(texts(deps@) =~= insight@.dependencies.map_values(|d: Seq<char>| dependency_line(d)));
    push_section(&mut lines, "\u{1F4E6} Dependency Files:", &deps);
    push_section(&mut lines, "\u{1F333} Project Structure:", &insight.structure);

    let ghost body = texts(lines@);
    push_line(&mut lines, String::new());
    push_line(&mut lines, bar.clone());
    push_line(&mut lines, String::new());
    assert(texts(lines@) =~= body + seq![Seq::empty(), rule(60), Seq::empty()]);
    lines
}

} // verus!
