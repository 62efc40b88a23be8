//! The search itself: which files are searched, which of their constructs
//! match, and the rendered results in the order in which they are written.

use crate::highlight::Highlighter;
use crate::matcher::regex_is_match;
use crate::matcher::Pattern;
use crate::output::Output;
use crate::parse::parse;
use crate::parse::parsed_constructs;
use crate::parse::Construct;
use crate::render::is_rendering;
use crate::render::render;
use crate::render::RenderedResult;
use crate::span::lemma_span_in_text;
use crate::span::line_table;
use crate::span::span_bytes;
use crate::span::span_in_text;
use crate::span::ByteSpanTable;
use crate::util::FileEntry;
use crate::util::ParsedFile;
use crate::util::RUST_EXTENSION;
use vstd::multiset::Multiset;
use vstd::prelude::*;
use vstd::string::StringExecFns;
use vstd::string::StringSliceAdditionalSpecFns;
use vstd::utf8::*;

verus! {

/// What a run of the search is given.
#[derive(Debug)]
pub struct Args {
    /// The pattern that the text of a construct has to match.
    pub regex: Pattern,
    /// The directory that is searched.
    pub path: String,
    /// Whether the tree is walked by several workers at once.
    pub parallel: bool,
    /// Where the results go.
    pub output: Output,
}

/// The entry is a Rust source file: it is known to be no directory, and its
/// extension is `rs`.
pub open spec fn is_rust_entry(entry: FileEntry) -> bool {
    &&& entry.is_dir == Some(false)
    &&& entry.extension matches Some(extension)
    &&& extension@ == RUST_EXTENSION@
}

/// Whether the entry is a file to be searched.
pub fn is_rust_file(dir_entry: &FileEntry) -> (qualifies: bool)
    ensures
        qualifies == is_rust_entry(*dir_entry),
{
    let is_file = match dir_entry.is_dir {
        Some(is_dir) => !is_dir,
        None => false,
    };
    is_file && match &dir_entry.extension {
        Some(extension) => *extension == String::from_str(RUST_EXTENSION),
        None => false,
    }
}

/// The text of a construct, cut out of `bytes` by `table`.
pub open spec fn construct_text(table: Seq<int>, bytes: Seq<u8>, construct: Construct) -> Seq<
    char,
> {
    decode_utf8(span_bytes(table, bytes, construct.start_line as int, construct.end_line as int))
}

/// The text of a construct of the file `text`: the lines behind its first
/// line, up to its last line.
pub open spec fn span_text(text: Seq<char>, construct: Construct) -> Seq<char> {
    construct_text(line_table(encode_utf8(text)), encode_utf8(text), construct)
}

/// The lines of the construct are lines of `text`.
pub open spec fn span_fits(text: Seq<char>, construct: Construct) -> bool {
    construct.start_line <= construct.end_line < line_table(encode_utf8(text)).len()
}

/// The lines of all constructs are lines of `text`.
pub open spec fn spans_fit(text: Seq<char>, constructs: Seq<Construct>) -> bool {
    forall|i: int| 0 <= i < constructs.len() ==> span_fits(text, #[trigger] constructs[i])
}

/// The constructs of the file `text` whose text matches `pattern`, in the
/// order in which they are declared. A file that does not parse has none,
/// and neither has one with a construct whose lines are not lines of the
/// file.
pub open spec fn hits(text: Seq<char>, pattern: Seq<char>) -> Seq<Construct> {
    match parsed_constructs(text) {
        Some(constructs) => if spans_fit(text, constructs) {
            constructs.filter(|c: Construct| regex_is_match(pattern, span_text(text, c)))
        } else {
            Seq::empty()
        },
        None => Seq::empty(),
    }
}

/// `result` is what the search reports of `construct`: its kind, its lines,
/// and a rendering of its text.
pub open spec fn reports(
    result: RenderedResult,
    text: Seq<char>,
    pattern: Seq<char>,
    construct: Construct,
) -> bool {
    &&& result.kind == construct.kind
    &&& result.line_range == (construct.start_line, construct.end_line)
    &&& is_rendering(result.text@, span_text(text, construct), pattern)
}

/// Searches one construct: cuts its text out of `text`, tests it against the
/// pattern as a whole, and renders it if it matches. `None` where the text
/// does not match, and where `table` and `text` do not admit the lines of the
/// construct.
pub fn grep_item(
    text: &str,
    table: &ByteSpanTable,
    construct: &Construct,
    pattern: &Pattern,
    highlighter: &Highlighter,
) -> (result: Option<RenderedResult>)
    ensures
        match result {
            Some(found) => {
                &&& span_in_text(
                    table@,
                    text.spec_bytes(),
                    construct.start_line as int,
                    construct.end_line as int,
                )
                &&& regex_is_match(pattern@, construct_text(table@, text.spec_bytes(), *construct))
                &&& found.kind == construct.kind
                &&& found.line_range == (construct.start_line, construct.end_line)
                &&& is_rendering(
                    found.text@,
                    construct_text(table@, text.spec_bytes(), *construct),
                    pattern@,
                )
            },
            None => !span_in_text(
                table@,
                text.spec_bytes(),
                construct.start_line as int,
                construct.end_line as int,
            ) || !regex_is_match(pattern@, construct_text(table@, text.spec_bytes(), *construct)),
        },
{
    match table.slice(text, construct.start_line, construct.end_line) {
        Some(item) => {
            proof {
                encode_utf8_decode_utf8(item@);
            }
            if pattern.test(item) {
                Some(
                    RenderedResult {
                        kind: construct.kind,
                        line_range: (construct.start_line, construct.end_line),
                        text: render(item, pattern, highlighter),
                    },
                )
            } else {
                None
            }
        },
        None => None,
    }
}

/// Whether the lines of all constructs are lines of the text that `table`
/// was made of.
pub fn spans_known(table: &ByteSpanTable, constructs: &Vec<Construct>) -> (known: bool)
    ensures
        known == forall|i: int|
            0 <= i < constructs@.len() ==> (#[trigger] constructs@[i]).start_line
                <= constructs@[i].end_line < table@.len(),
{
    let mut i: usize = 0;
    while i < constructs.len()
        invariant
            0 <= i <= constructs@.len(),
            forall|j: int|
                0 <= j < i ==> (#[trigger] constructs@[j]).start_line <= constructs@[j].end_line
                    < table@.len(),
        decreases constructs@.len() - i,
    {
        if constructs[i].start_line > constructs[i].end_line || constructs[i].end_line
            >= table.len() {
            return false;
        }
        i += 1;
    }
    true
}

/// Searches one file: parses it, and renders each of its constructs whose
/// text matches the pattern, in the order in which they are declared. A file
/// that does not parse gives no result, and neither does one whose constructs
/// name lines that it does not have.
pub fn grep_items(file: &ParsedFile, pattern: &Pattern, highlighter: &Highlighter) -> (results: Vec<
    RenderedResult,
>)
    ensures
        results@.len() == hits(file.contents@, pattern@).len(),
        forall|i: int|
            0 <= i < results@.len() ==> reports(
                #[trigger] results@[i],
                file.contents@,
                pattern@,
                hits(file.contents@, pattern@)[i],
            ),
        parsed_constructs(file.contents@).is_none() ==> results@.len() == 0,
{
    let text = file.contents.as_str();
    let mut results: Vec<RenderedResult> = Vec::new();
    let constructs = match parse(text) {
        Ok(constructs) => constructs,
        Err(_) => {
            return results;
        },
    };
    let table = ByteSpanTable::new(text);
    if !spans_known(&table, &constructs) {
        return results;
    }
    let ghost matching = |c: Construct| regex_is_match(pattern@, span_text(text@, c));
    proof {
        assert(spans_fit(text@, constructs@));
        assert(constructs@.take(0).filter(matching).len() == 0) by {
            reveal(Seq::filter);
        }
    }
    let mut i: usize = 0;
    while i < constructs.len()
        invariant
            0 <= i <= constructs@.len(),
            text@ == file.contents@,
            table@ == line_table(text.spec_bytes()),
            spans_fit(text@, constructs@),
            matching == |c: Construct| regex_is_match(pattern@, span_text(text@, c)),
            results@.len() == constructs@.take(i as int).filter(matching).len(),
            forall|j: int|
                0 <= j < results@.len() ==> reports(
                    #[trigger] results@[j],
                    text@,
                    pattern@,
                    constructs@.take(i as int).filter(matching)[j],
                ),
        decreases constructs@.len() - i,
    {
        let ghost before = constructs@.take(i as int);
        proof {
            assert(constructs@.take(i + 1) =~= before.push(constructs@[i as int]));
            before.lemma_filter_push(constructs@[i as int], matching);
            assert(span_fits(text@, constructs@[i as int]));
            encode_utf8_valid_utf8(text@);
            lemma_span_in_text(
                text.spec_bytes(),
                constructs@[i as int].start_line as int,
                constructs@[i as int].end_line as int,
            );
        }
        match grep_item(text, &table, &constructs[i], pattern, highlighter) {
            Some(found) => {
                results.push(found);
            },
            None => {},
        }
        i += 1;
    }
    proof {
        assert(constructs@.take(constructs@.len() as int) =~= constructs@);
    }
    results
}

/// A match of the search in a tree: the file it was found in, by its place
/// among the files, and the construct that matched.
pub struct Hit {
    pub file: int,
    pub construct: Construct,
}

/// The constructs that the search finds in one file. A file that is no Rust
/// source file is not searched.
pub open spec fn found_in(file: ParsedFile, pattern: Seq<char>) -> Seq<Construct> {
    if is_rust_entry(file.dir_entry) {
        hits(file.contents@, pattern)
    } else {
        Seq::empty()
    }
}

/// The matches in file `file` of a tree.
pub open spec fn file_hits(files: Seq<ParsedFile>, pattern: Seq<char>, file: int) -> Seq<Hit> {
    found_in(files[file], pattern).map_values(|construct: Construct| Hit { file, construct })
}

/// The matches in the first `count` files, file by file in the order of the
/// files, and in each file in the order in which its constructs are declared.
pub open spec fn dir_hits(files: Seq<ParsedFile>, pattern: Seq<char>, count: int) -> Seq<Hit>
    decreases count,
{
    if count <= 0 {
        Seq::empty()
    } else {
        dir_hits(files, pattern, count - 1) + file_hits(files, pattern, count - 1)
    }
}

/// Result `k` of a search of the first `count` files reports match `k` in
/// those files.
pub open spec fn reports_hit(
    results: Seq<RenderedResult>,
    files: Seq<ParsedFile>,
    pattern: Seq<char>,
    count: int,
    k: int,
) -> bool {
    let hit = dir_hits(files, pattern, count)[k];
    &&& 0 <= hit.file < count
    &&& reports(results[k], files[hit.file].contents@, pattern, hit.construct)
}

/// Searches the files of a tree one after the other, in the order in which
/// the walk visited them. The results stand in the order in which they are
/// written: file by file, and in each file in the order in which its
/// constructs are declared. A file that does not parse adds nothing and
/// leaves the results of the others as they are.
pub fn rgrok_dir(args: &Args, files: &Vec<ParsedFile>, highlighter: &Highlighter) -> (results: Vec<
    RenderedResult,
>)
    ensures
        results@.len() == dir_hits(files@, args.regex@, files@.len() as int).len(),
        forall|k: int|
            0 <= k < results@.len() ==> #[trigger] reports_hit(
                results@,
                files@,
                args.regex@,
                files@.len() as int,
                k,
            ),
{
    let mut results: Vec<RenderedResult> = Vec::new();
    let mut i: usize = 0;
    while i < files.len()
        invariant
            0 <= i <= files@.len(),
            results@.len() == dir_hits(files@, args.regex@, i as int).len(),
            forall|k: int|
                0 <= k < results@.len() ==> #[trigger] reports_hit(
                    results@,
                    files@,
                    args.regex@,
                    i as int,
                    k,
                ),
        decreases files@.len() - i,
    {
        let ghost before = results@;
        let ghost earlier = dir_hits(files@, args.regex@, i as int);
        let ghost here = file_hits(files@, args.regex@, i as int);
        if is_rust_file(&files[i].dir_entry) {
            let mut found = grep_items(&files[i], &args.regex, highlighter);
            results.append(&mut found);
        }
        proof {
            let now = dir_hits(files@, args.regex@, i + 1);
            assert(now == earlier + here);
            assert forall|k: int| 0 <= k < results@.len() implies #[trigger] reports_hit(
                results@,
                files@,
                args.regex@,
                i + 1,
                k,
            ) by {
                if k < before.len() {
                    assert(results@[k] == before[k]);
                    assert(now[k] == earlier[k]);
                    assert(reports_hit(before, files@, args.regex@, i as int, k));
                } else {
                    assert(now[k] == here[k - before.len()]);
                    assert(here[k - before.len()].file == i);
                }
            }
        }
        i += 1;
    }
    results
}

/// The matches of a tree stand in the order of the walk: a match in an
/// earlier file stands before every match in a later one.
pub proof fn lemma_hits_in_walk_order(
    files: Seq<ParsedFile>,
    pattern: Seq<char>,
    count: int,
    a: int,
    b: int,
)
    requires
        0 <= a <= b < dir_hits(files, pattern, count).len(),
    ensures
        0 <= dir_hits(files, pattern, count)[a].file <= dir_hits(files, pattern, count)[b].file
            < count,
    decreases count,
{
    if count > 0 {
        let earlier = dir_hits(files, pattern, count - 1);
        if b < earlier.len() {
            lemma_hits_in_walk_order(files, pattern, count - 1, a, b);
        } else if a < earlier.len() {
            lemma_hits_in_walk_order(files, pattern, count - 1, a, a);
        }
    }
}

/// What a file adds to the matches of a tree is what the search finds in
/// that file, in the same order, whatever the other files hold.
pub proof fn lemma_hits_of_each_file(
    files: Seq<ParsedFile>,
    pattern: Seq<char>,
    count: int,
    file: int,
    k: int,
)
    requires
        0 <= file < count,
        0 <= k < found_in(files[file], pattern).len(),
    ensures
        dir_hits(files, pattern, file).len() + k < dir_hits(files, pattern, count).len(),
        dir_hits(files, pattern, count)[dir_hits(files, pattern, file).len() + k] == (Hit {
            file,
            construct: found_in(files[file], pattern)[k],
        }),
    decreases count,
{
    if file < count - 1 {
        lemma_hits_of_each_file(files, pattern, count - 1, file, k);
    }
}

/// A file that does not parse adds no match to those of a tree.
pub proof fn lemma_unparsed_file_adds_nothing(
    files: Seq<ParsedFile>,
    pattern: Seq<char>,
    file: int,
)
    requires
        parsed_constructs(files[file].contents@).is_none(),
    ensures
        found_in(files[file], pattern).len() == 0,
        file >= 0 ==> dir_hits(files, pattern, file + 1) == dir_hits(files, pattern, file),
{
    assert(file_hits(files, pattern, file) =~= Seq::<Hit>::empty());
    if file >= 0 {
        assert(dir_hits(files, pattern, file + 1) =~= dir_hits(files, pattern, file));
    }
}

/// What is kept of a sequence keeps the order it had there.
proof fn lemma_filter_keeps_order<A>(s: Seq<A>, pred: spec_fn(A) -> bool, i: int, j: int)
    requires
        0 <= i < j < s.filter(pred).len(),
    ensures
        exists|p: int, q: int|
            0 <= p < q < s.len() && s[p] == s.filter(pred)[i] && s[q] == s.filter(pred)[j],
    decreases s.len(),
{
    reveal(Seq::filter);
    let front = s.drop_last();
    let kept = front.filter(pred);
    if j < kept.len() {
        lemma_filter_keeps_order(front, pred, i, j);
        let (p, q) = choose|p: int, q: int|
            0 <= p < q < front.len() && front[p] == kept[i] && front[q] == kept[j];
        assert(s[p] == s.filter(pred)[i] && s[q] == s.filter(pred)[j]);
    } else {
        front.lemma_filter_contains_rev(pred, kept[i]);
        let p = choose|p: int| 0 <= p < front.len() && front[p] == kept[i];
        assert(s[p] == s.filter(pred)[i] && s[s.len() - 1] == s.filter(pred)[j]);
    }
}

/// The matches of a file stand in the order in which the parser hands out
/// its constructs.
pub proof fn lemma_hits_in_declaration_order(text: Seq<char>, pattern: Seq<char>, i: int, j: int)
    requires
        0 <= i < j < hits(text, pattern).len(),
    ensures
        parsed_constructs(text) matches Some(constructs) && exists|p: int, q: int|
            0 <= p < q < constructs.len() && constructs[p] == hits(text, pattern)[i]
                && constructs[q] == hits(text, pattern)[j],
{
    let constructs = parsed_constructs(text).unwrap();
    lemma_filter_keeps_order(
        constructs,
        |c: Construct| regex_is_match(pattern, span_text(text, c)),
        i,
        j,
    );
}

/// The matches of a tree, each with the file it was found in.
pub open spec fn located(files: Seq<ParsedFile>, pattern: Seq<char>) -> Seq<
    (ParsedFile, Construct),
> {
    dir_hits(files, pattern, files.len() as int).map_values(
        |hit: Hit| (files[hit.file], hit.construct),
    )
}

/// The matches of one file, each with the file.
pub open spec fn located_in(file: ParsedFile, pattern: Seq<char>) -> Seq<(ParsedFile, Construct)> {
    found_in(file, pattern).map_values(|construct: Construct| (file, construct))
}

/// The matches of all files together, without an order.
pub open spec fn gathered(files: Seq<ParsedFile>, pattern: Seq<char>) -> Multiset<
    (ParsedFile, Construct),
>
    decreases files.len(),
{
    if files.len() == 0 {
        Multiset::empty()
    } else {
        gathered(files.drop_last(), pattern).add(located_in(files.last(), pattern).to_multiset())
    }
}

proof fn lemma_located_prefix(files: Seq<ParsedFile>, pattern: Seq<char>, count: int)
    requires
        0 <= count <= files.len(),
    ensures
        dir_hits(files, pattern, count).map_values(
            |hit: Hit| (files[hit.file], hit.construct),
        ).to_multiset() == gathered(files.take(count), pattern),
    decreases count,
{
    let place = |hit: Hit| (files[hit.file], hit.construct);
    if count == 0 {
        assert(dir_hits(files, pattern, 0).map_values(place) =~= Seq::empty());
        assert(files.take(0) =~= Seq::<ParsedFile>::empty());
        Seq::<(ParsedFile, Construct)>::empty().to_multiset_ensures();
        assert(Seq::<(ParsedFile, Construct)>::empty().to_multiset() =~= Multiset::empty());
    } else {
        lemma_located_prefix(files, pattern, count - 1);
        let earlier = dir_hits(files, pattern, count - 1);
        let here = file_hits(files, pattern, count - 1);
        assert(dir_hits(files, pattern, count).map_values(place) =~= earlier.map_values(place)
            + here.map_values(place));
        assert(here.map_values(place) =~= located_in(files[count - 1], pattern));
        vstd::seq_lib::lemma_multiset_commutative(
            earlier.map_values(place),
            here.map_values(place),
        );
        assert(files.take(count).drop_last() =~= files.take(count - 1));
        assert(files.take(count).last() == files[count - 1]);
    }
}

proof fn lemma_gathered_without(files: Seq<ParsedFile>, pattern: Seq<char>, at: int)
    requires
        0 <= at < files.len(),
    ensures
        gathered(files.remove(at), pattern).add(located_in(files[at], pattern).to_multiset())
            == gathered(files, pattern),
    decreases files.len(),
{
    if at == files.len() - 1 {
        assert(files.remove(at) =~= files.drop_last());
    } else {
        let front = files.drop_last();
        lemma_gathered_without(front, pattern, at);
        assert(files.remove(at).drop_last() =~= front.remove(at));
        assert(files.remove(at).last() == files.last());
        assert(gathered(front.remove(at), pattern).add(
            located_in(files.last(), pattern).to_multiset(),
        ).add(located_in(files[at], pattern).to_multiset()) =~= gathered(front.remove(at), pattern).add(
            located_in(files[at], pattern).to_multiset(),
        ).add(located_in(files.last(), pattern).to_multiset()));
    }
}

proof fn lemma_gathered_in_any_order(a: Seq<ParsedFile>, b: Seq<ParsedFile>, pattern: Seq<char>)
    requires
        a.to_multiset() == b.to_multiset(),
    ensures
        gathered(a, pattern) == gathered(b, pattern),
    decreases a.len(),
{
    a.to_multiset_ensures();
    b.to_multiset_ensures();
    if a.len() == 0 {
        assert(b.len() == 0);
    } else {
        let last = a.last();
        assert(a.to_multiset().count(last) > 0) by {
            assert(a.contains(last));
        }
        assert(b.contains(last));
        let at = choose|at: int| 0 <= at < b.len() && b[at] == last;
        assert(a.drop_last() =~= a.remove(a.len() - 1));
        vstd::seq_lib::to_multiset_remove(a, a.len() - 1);
        vstd::seq_lib::to_multiset_remove(b, at);
        lemma_gathered_in_any_order(a.drop_last(), b.remove(at), pattern);
        lemma_gathered_without(b, pattern, at);
    }
}

/// The search finds the same in whatever order the files come: two runs
/// over the same files find the same matches, each as often, though not in
/// the same order.
pub proof fn lemma_found_in_any_order(a: Seq<ParsedFile>, b: Seq<ParsedFile>, pattern: Seq<char>)
    requires
        a.to_multiset() == b.to_multiset(),
    ensures
        located(a, pattern).to_multiset() == located(b, pattern).to_multiset(),
{
    lemma_located_prefix(a, pattern, a.len() as int);
    lemma_located_prefix(b, pattern, b.len() as int);
    assert(a.take(a.len() as int) =~= a);
    assert(b.take(b.len() as int) =~= b);
    lemma_gathered_in_any_order(a, b, pattern);
}

} // verus!
