//! What is written out: for each output path, the lines of all the sinks
//! that share it, each line once, in ascending order.

use vstd::prelude::*;
use crate::message::strings_view;
use crate::pool::Resolved;
use crate::text::chars_of;

verus! {

/// A sink and the path its lines are written to.
#[derive(Debug, PartialEq, Eq)]
pub struct ResolveResult {
    pub resolved_rx: usize,
    pub out_path: String,
}

impl ResolveResult {
    /// Ties sink number `resolved_rx` to the path `out_path`.
    pub fn new(resolved_rx: usize, out_path: String) -> (r: ResolveResult)
        ensures
            r.resolved_rx == resolved_rx,
            r.out_path == out_path,
    {
        ResolveResult { resolved_rx, out_path }
    }
}

/// How two texts compare.
#[derive(Copy, Clone, Debug, PartialEq, Eq, Structural)]
pub enum Order {
    Before,
    Same,
    After,
}

/// `a` and `b` agree on their first `k` characters.
pub open spec fn agree(a: Seq<char>, b: Seq<char>, k: int) -> bool {
    &&& 0 <= k <= a.len()
    &&& k <= b.len()
    &&& forall|j: int| 0 <= j < k ==> a[j] == b[j]
}

/// `a` comes before `b` with their first difference at `k`: there `a` ends
/// and `b` goes on, or `a` has the smaller character.
pub open spec fn before_at(a: Seq<char>, b: Seq<char>, k: int) -> bool {
    &&& agree(a, b, k)
    &&& k < b.len()
    &&& k < a.len() ==> a[k] < b[k]
}

/// `a` comes before `b` in lexicographic order.
pub open spec fn text_lt(a: Seq<char>, b: Seq<char>) -> bool {
    exists|k: int| before_at(a, b, k)
}

/// Each text comes before all later ones: ascending, nothing twice.
pub open spec fn ascending(lines: Seq<Seq<char>>) -> bool {
    forall|p: int, q: int| 0 <= p < q < lines.len() ==> text_lt(lines[p], lines[q])
}

/// Compares two texts in lexicographic order.
pub fn compare(a: &Vec<char>, b: &Vec<char>) -> (o: Order)
    ensures
        o is Before ==> text_lt(a@, b@),
        o is Same ==> a@ == b@,
        o is After ==> text_lt(b@, a@),
{
    let mut i: usize = 0;
    while i < a.len() && i < b.len()
        invariant
            agree(a@, b@, i as int),
        decreases a.len() - i,
    {
        if a[i] != b[i] {
            if a[i] < b[i] {
                assert(before_at(a@, b@, i as int));
                return Order::Before;
            } else {
                assert(agree(b@, a@, i as int));
                assert(before_at(b@, a@, i as int));
                return Order::After;
            }
        }
        i += 1;
    }
    if i < b.len() {
        assert(before_at(a@, b@, i as int));
        Order::Before
    } else if i < a.len() {
        assert(agree(b@, a@, i as int));
        assert(before_at(b@, a@, i as int));
        Order::After
    } else {
        assert(a@ =~= b@);
        Order::Same
    }
}

/// No text comes before itself.
pub proof fn lemma_lt_irreflexive(a: Seq<char>)
    ensures
        !text_lt(a, a),
{
}

/// The order is transitive.
pub proof fn lemma_lt_transitive(a: Seq<char>, b: Seq<char>, c: Seq<char>)
    requires
        text_lt(a, b),
        text_lt(b, c),
    ensures
        text_lt(a, c),
{
    let k1 = choose|k: int| before_at(a, b, k);
    let k2 = choose|k: int| before_at(b, c, k);
    let k = if k1 <= k2 {
        k1
    } else {
        k2
    };
    assert(agree(a, c, k));
    assert(before_at(a, c, k));
}

/// The order is asymmetric: of two texts at most one comes before the other.
pub proof fn lemma_lt_asymmetric(a: Seq<char>, b: Seq<char>)
    requires
        text_lt(a, b),
    ensures
        !text_lt(b, a),
{
    if text_lt(b, a) {
        lemma_lt_transitive(a, b, a);
    }
}

/// The lines of one output file.
#[derive(Debug, PartialEq, Eq)]
pub struct OutputFile {
    pub path: String,
    pub lines: Vec<String>,
}

impl OutputFile {
    /// The lines are in ascending order, none twice.
    pub open spec fn wf(&self) -> bool {
        ascending(strings_view(self.lines@))
    }

    /// A file without lines.
    pub fn new(path: String) -> (f: OutputFile)
        ensures
            f.path == path,
            f.lines@.len() == 0,
            f.wf(),
    {
        OutputFile { path, lines: Vec::new() }
    }

    /// Adds a line in its place, unless the file holds it already.
    pub fn add(&mut self, line: String)
        requires
            old(self).wf(),
        ensures
            final(self).wf(),
            final(self).path == old(self).path,
            forall|t: Seq<char>|
                strings_view(final(self).lines@).contains(t) <==> (strings_view(
                    old(self).lines@,
                ).contains(t) || t == line@),
            strings_view(old(self).lines@).contains(line@) ==> final(self).lines@ == old(
                self,
            ).lines@,
            !strings_view(old(self).lines@).contains(line@) ==> final(self).lines@.len() == old(
                self,
            ).lines@.len() + 1,
    {
        let ghost before = strings_view(self.lines@);
        let text = chars_of(line.as_str());
        let mut i: usize = 0;
        let mut end: usize = self.lines.len();
        while i < end
            invariant
                i <= end <= self.lines.len(),
                *self == *old(self),
                self.wf(),
                before == strings_view(self.lines@),
                text@ == line@,
                forall|j: int| 0 <= j < i ==> text_lt(before[j], line@),
                forall|j: int| end <= j < before.len() ==> text_lt(line@, before[j]),
            decreases end - i,
        {
            let mid: usize = i + (end - i) / 2;
            let here = chars_of(self.lines[mid].as_str());
            assert(here@ == before[mid as int]);
            match compare(&here, &text) {
                Order::Before => {
                    assert forall|j: int| 0 <= j < mid + 1 implies text_lt(before[j], line@) by {
                        if j < mid {
                            lemma_lt_transitive(before[j], before[mid as int], line@);
                        }
                    }
                    i = mid + 1;
                },
                Order::Same => {
                    assert(before[mid as int] == line@);
                    return ;
                },
                Order::After => {
                    assert forall|j: int| mid <= j < before.len() implies text_lt(
                        line@,
                        before[j],
                    ) by {
                        if j > mid {
                            lemma_lt_transitive(line@, before[mid as int], before[j]);
                        }
                    }
                    end = mid;
                },
            }
        }
        proof {
            assert forall|q: int| 0 <= q < before.len() implies before[q] != line@ by {
                lemma_lt_irreflexive(line@);
            }
        }
        self.lines.insert(i, line);
        proof {
            let after = strings_view(self.lines@);
            assert(after == before.insert(i as int, line@));
            assert forall|p: int, q: int| 0 <= p < q < after.len() implies text_lt(
                after[p],
                after[q],
            ) by {
                if q < i {
                    assert(after[p] == before[p] && after[q] == before[q]);
                } else if q == i {
                    assert(after[p] == before[p]);
                } else if p < i {
                    assert(after[p] == before[p] && after[q] == before[q - 1]);
                } else if p == i {
                    assert(after[q] == before[q - 1]);
                } else {
                    assert(after[p] == before[p - 1] && after[q] == before[q - 1]);
                }
            }
            assert forall|t: Seq<char>| after.contains(t) <==> (before.contains(t) || t
                == line@) by {
                if after.contains(t) {
                    let p = choose|p: int| 0 <= p < after.len() && after[p] == t;
                    if p < i {
                        assert(before[p] == t);
                    } else if p > i {
                        assert(before[p - 1] == t);
                    }
                }
                if before.contains(t) {
                    let p = choose|p: int| 0 <= p < before.len() && before[p] == t;
                    if p < i {
                        assert(after[p] == t);
                    } else {
                        assert(after[p + 1] == t);
                    }
                }
                if t == line@ {
                    assert(after[i as int] == t);
                }
            }
        }
    }
}

/// Sink `tx` writes to `path`.
pub open spec fn routes(results: Seq<ResolveResult>, tx: usize, path: Seq<char>) -> bool {
    exists|i: int|
        0 <= i < results.len() && (#[trigger] results[i]).resolved_rx == tx && results[i].out_path@
            == path
}

/// The text `t` is a line of some sink that writes to `path`.
pub open spec fn belongs(
    results: Seq<ResolveResult>,
    resolved: Seq<Resolved>,
    path: Seq<char>,
    t: Seq<char>,
) -> bool {
    exists|k: int|
        0 <= k < resolved.len() && (#[trigger] resolved[k]).line@ == t && routes(
            results,
            resolved[k].tx,
            path,
        )
}

/// Some result writes to `path`.
pub open spec fn names_path(results: Seq<ResolveResult>, path: Seq<char>) -> bool {
    exists|i: int| 0 <= i < results.len() && (#[trigger] results[i]).out_path@ == path
}

/// Some file of `files` has the path `path`.
pub open spec fn has_file(files: Seq<OutputFile>, path: Seq<char>) -> bool {
    exists|f: int| 0 <= f < files.len() && (#[trigger] files[f]).path@ == path
}

/// `file` holds exactly the lines of the sinks that write to its path.
pub open spec fn holds_lines_of(
    file: OutputFile,
    results: Seq<ResolveResult>,
    resolved: Seq<Resolved>,
) -> bool {
    forall|t: Seq<char>|
        strings_view(file.lines@).contains(t) <==> belongs(results, resolved, file.path@, t)
}

/// True when sink `tx` writes to `path`.
pub fn sink_writes_to(results: &Vec<ResolveResult>, tx: usize, path: &String) -> (b: bool)
    ensures
        b == routes(results@, tx, path@),
{
    let mut i: usize = 0;
    while i < results.len()
        invariant
            i <= results.len(),
            forall|j: int|
                0 <= j < i ==> !((#[trigger] results@[j]).resolved_rx == tx && results@[j].out_path@
                    == path@),
        decreases results.len() - i,
    {
        if results[i].resolved_rx == tx && results[i].out_path == *path {
            return true;
        }
        i += 1;
    }
    false
}

/// The file at `path`: every line of every sink that writes to `path`,
/// each once, in ascending order.
pub fn collect_lines(path: String, results: &Vec<ResolveResult>, resolved: &Vec<Resolved>) -> (f:
    OutputFile)
    ensures
        f.path == path,
        f.wf(),
        holds_lines_of(f, results@, resolved@),
{
    let mut f = OutputFile::new(path);
    let mut k: usize = 0;
    while k < resolved.len()
        invariant
            k <= resolved.len(),
            f.path == path,
            f.wf(),
            forall|t: Seq<char>|
                strings_view(f.lines@).contains(t) <==> belongs(
                    results@,
                    resolved@.subrange(0, k as int),
                    path@,
                    t,
                ),
        decreases resolved.len() - k,
    {
        let ghost before = strings_view(f.lines@);
        let ghost seen = resolved@.subrange(0, k as int);
        let ghost next = resolved@.subrange(0, k as int + 1);
        let writes = sink_writes_to(results, resolved[k].tx, &f.path);
        if writes {
            f.add(resolved[k].line.clone());
        }
        proof {
            assert forall|t: Seq<char>| strings_view(f.lines@).contains(t) <==> belongs(
                results@,
                next,
                path@,
                t,
            ) by {
                if belongs(results@, next, path@, t) {
                    let j = choose|j: int|
                        0 <= j < next.len() && (#[trigger] next[j]).line@ == t && routes(
                            results@,
                            next[j].tx,
                            path@,
                        );
                    if j < k {
                        assert(seen[j] == next[j]);
                        assert(belongs(results@, seen, path@, t));
                    }
                }
                if belongs(results@, seen, path@, t) {
                    let j = choose|j: int|
                        0 <= j < seen.len() && (#[trigger] seen[j]).line@ == t && routes(
                            results@,
                            seen[j].tx,
                            path@,
                        );
                    assert(next[j] == seen[j]);
                }
                if writes && t == resolved@[k as int].line@ {
                    assert(next[k as int] == resolved@[k as int]);
                }
            }
        }
        k += 1;
    }
    proof {
        assert(resolved@.subrange(0, resolved.len() as int) == resolved@);
    }
    f
}

/// True when some file of `files` has the path `path`.
pub fn has_path(files: &Vec<OutputFile>, path: &String) -> (b: bool)
    ensures
        b == has_file(files@, path@),
{
    let mut i: usize = 0;
    while i < files.len()
        invariant
            i <= files.len(),
            forall|j: int| 0 <= j < i ==> (#[trigger] files@[j]).path@ != path@,
        decreases files.len() - i,
    {
        if files[i].path == *path {
            return true;
        }
        i += 1;
    }
    false
}

/// The files to write: one for each path that some result names, holding
/// every line of every sink that writes to that path, each line once, in
/// ascending order.
pub fn merge_outputs(results: &Vec<ResolveResult>, resolved: &Vec<Resolved>) -> (files: Vec<
    OutputFile,
>)
    ensures
        forall|f: int|
            0 <= f < files@.len() ==> (#[trigger] files@[f]).wf() && names_path(
                results@,
                files@[f].path@,
            ),
        forall|f: int|
            0 <= f < files@.len() ==> holds_lines_of(#[trigger] files@[f], results@, resolved@),
        forall|f: int, g: int|
            0 <= f < g < files@.len() ==> (#[trigger] files@[f]).path@ != (#[trigger] files@[g]).path@,
        forall|i: int|
            0 <= i < results@.len() ==> has_file(files@, (#[trigger] results@[i]).out_path@),
{
    let mut files: Vec<OutputFile> = Vec::new();
    let mut i: usize = 0;
    while i < results.len()
        invariant
            i <= results.len(),
            forall|f: int|
                0 <= f < files@.len() ==> (#[trigger] files@[f]).wf() && names_path(
                    results@,
                    files@[f].path@,
                ),
            forall|f: int|
                0 <= f < files@.len() ==> holds_lines_of(#[trigger] files@[f], results@, resolved@),
            forall|f: int, g: int|
                0 <= f < g < files@.len() ==> (#[trigger] files@[f]).path@ != (
                #[trigger] files@[g]).path@,
            forall|j: int| 0 <= j < i ==> has_file(files@, (#[trigger] results@[j]).out_path@),
        decreases results.len() - i,
    {
        let ghost before = files@;
        if !has_path(&files, &results[i].out_path) {
            let file = collect_lines(results[i].out_path.clone(), results, resolved);
            files.push(file);
            proof {
                let last = before.len() as int;
                assert(files@[last].path@ == results@[i as int].out_path@);
                assert(names_path(results@, files@[last].path@));
                assert forall|f: int| 0 <= f < files@.len() implies (#[trigger] files@[f]).wf()
                    && names_path(results@, files@[f].path@) by {
                    if f < last {
                        assert(files@[f] == before[f]);
                    }
                }
                assert forall|f: int| 0 <= f < files@.len() implies holds_lines_of(
                    #[trigger] files@[f],
                    results@,
                    resolved@,
                ) by {
                    if f < last {
                        assert(files@[f] == before[f]);
                    }
                }
                assert forall|f: int, g: int| 0 <= f < g < files@.len() implies (
                #[trigger] files@[f]).path@ != (#[trigger] files@[g]).path@ by {
                    assert(files@[f] == before[f]);
                    if g < last {
                        assert(files@[g] == before[g]);
                    }
                }
            }
        }
        proof {
            assert forall|j: int| 0 <= j <= i implies has_file(
                files@,
                (#[trigger] results@[j]).out_path@,
            ) by {
                if j < i {
                    let f = choose|f: int|
                        0 <= f < before.len() && (#[trigger] before[f]).path@
                            == results@[j].out_path@;
                    assert(files@[f] == before[f]);
                } else if files@.len() > before.len() {
                    assert(files@[before.len() as int].path@ == results@[i as int].out_path@);
                }
            }
        }
        i += 1;
    }
    files
}

/// Ascending texts are told by the texts alone: two ascending lists that
/// hold the same texts are the same list.
pub proof fn lemma_ascending_unique(a: Seq<Seq<char>>, b: Seq<Seq<char>>)
    requires
        ascending(a),
        ascending(b),
        forall|t: Seq<char>| a.contains(t) <==> b.contains(t),
    ensures
        a == b,
    decreases a.len(),
{
    if a.len() == 0 {
        if b.len() > 0 {
            assert(b.contains(b[0]));
        }
        assert(a =~= b);
    } else {
        assert(a.contains(a[0]));
        let q = choose|q: int| 0 <= q < b.len() && b[q] == a[0];
        assert(b.contains(b[0]));
        let p = choose|p: int| 0 <= p < a.len() && a[p] == b[0];
        if q > 0 {
            // then b[0] comes before a[0], which comes before or is a[p] = b[0]
            assert(text_lt(b[0], b[q]));
            if p > 0 {
                assert(text_lt(a[0], a[p]));
                lemma_lt_asymmetric(a[0], b[0]);
            } else {
                lemma_lt_irreflexive(a[0]);
            }
        }
        assert(a[0] == b[0]);
        let ta = a.drop_first();
        let tb = b.drop_first();
        assert forall|x: int, y: int| 0 <= x < y < ta.len() implies text_lt(ta[x], ta[y]) by {
            assert(ta[x] == a[x + 1] && ta[y] == a[y + 1]);
        }
        assert forall|x: int, y: int| 0 <= x < y < tb.len() implies text_lt(tb[x], tb[y]) by {
            assert(tb[x] == b[x + 1] && tb[y] == b[y + 1]);
        }
        assert forall|t: Seq<char>| ta.contains(t) <==> tb.contains(t) by {
            if ta.contains(t) {
                let x = choose|x: int| 0 <= x < ta.len() && ta[x] == t;
                assert(a[x + 1] == t);
                assert(a.contains(t));
                let y = choose|y: int| 0 <= y < b.len() && b[y] == t;
                if y == 0 {
                    assert(text_lt(a[0], a[x + 1]));
                    lemma_lt_irreflexive(t);
                }
                assert(tb[y - 1] == t);
            }
            if tb.contains(t) {
                let y = choose|y: int| 0 <= y < tb.len() && tb[y] == t;
                assert(b[y + 1] == t);
                assert(b.contains(t));
                let x = choose|x: int| 0 <= x < a.len() && a[x] == t;
                if x == 0 {
                    assert(text_lt(b[0], b[y + 1]));
                    lemma_lt_irreflexive(t);
                }
                assert(ta[x - 1] == t);
            }
        }
        lemma_ascending_unique(ta, tb);
        assert(a =~= seq![a[0]] + ta);
        assert(b =~= seq![b[0]] + tb);
    }
}

/// Determinism law: what a file holds depends on which lines its sinks
/// received, not on the order in which they arrived. Two files for the same
/// sinks and the same received lines, in whatever order, hold the same
/// lines in the same order.
pub proof fn lemma_output_is_order_independent(
    first: OutputFile,
    second: OutputFile,
    results: Seq<ResolveResult>,
    resolved_first: Seq<Resolved>,
    resolved_second: Seq<Resolved>,
)
    requires
        first.wf(),
        second.wf(),
        first.path@ == second.path@,
        holds_lines_of(first, results, resolved_first),
        holds_lines_of(second, results, resolved_second),
        forall|t: Seq<char>|
            belongs(results, resolved_first, first.path@, t) <==> belongs(
                results,
                resolved_second,
                first.path@,
                t,
            ),
    ensures
        strings_view(first.lines@) == strings_view(second.lines@),
{
    lemma_ascending_unique(strings_view(first.lines@), strings_view(second.lines@));
}

} // verus!
