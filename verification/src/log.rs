//! Codec of the persistent URL log: UTF-8 text, one URL per line, a trailing
//! newline after each entry, no header and no escaping. Reading tolerates
//! anything: empty lines and repeated lines are dropped, so the result is a
//! set. The file I/O around this codec lives with the host program; the log
//! is best-effort crash-recovery data, and a read failure is treated there as
//! an empty log.

use vstd::prelude::*;
use vstd::string::StrSliceExecFns;
use vstd::string::StringExecFns;
use crate::strutil::contains_str;

verus! {

/// A line that the log can represent faithfully: non-empty and without an
/// embedded newline.
pub open spec fn line_ok(line: Seq<char>) -> bool {
    line.len() > 0 && !line.contains('\n')
}

/// The file content for a list of URLs: each one followed by a newline, in
/// the list's order.
pub open spec fn serialize_log(urls: Seq<Seq<char>>) -> Seq<char>
    decreases urls.len(),
{
    if urls.len() == 0 {
        Seq::empty()
    } else {
        urls[0] + seq!['\n'] + serialize_log(urls.drop_first())
    }
}

/// File content cut at every newline. A trailing newline closes the last
/// line; a final piece without one still counts as a line.
pub open spec fn split_lines(content: Seq<char>) -> Seq<Seq<char>>
    decreases content.len(),
{
    if content.len() == 0 {
        Seq::empty()
    } else if content[0] == '\n' {
        seq![Seq::<char>::empty()] + split_lines(content.drop_first())
    } else {
        let rest = split_lines(content.drop_first());
        if rest.len() == 0 {
            seq![seq![content[0]]]
        } else {
            seq![seq![content[0]] + rest[0]] + rest.drop_first()
        }
    }
}

/// Drop every repetition of an element, keeping first occurrences and their
/// order.
pub open spec fn dedup_lines(lines: Seq<Seq<char>>) -> Seq<Seq<char>>
    decreases lines.len(),
{
    if lines.len() == 0 {
        Seq::empty()
    } else {
        let rest = dedup_lines(lines.drop_last());
        if rest.contains(lines.last()) {
            rest
        } else {
            rest.push(lines.last())
        }
    }
}

/// What loading file content yields: its lines, malformed (empty) ones
/// skipped, first occurrences kept.
pub open spec fn parse_log(content: Seq<char>) -> Seq<Seq<char>> {
    dedup_lines(split_lines(content).filter(|line: Seq<char>| line.len() > 0))
}

pub proof fn lemma_serialize_push(urls: Seq<Seq<char>>, url: Seq<char>)
    ensures
        serialize_log(urls.push(url)) == serialize_log(urls) + url + seq!['\n'],
    decreases urls.len(),
{
    if urls.len() == 0 {
        assert(urls.push(url)[0] == url);
        assert(urls.push(url).drop_first() =~= urls);
        assert(serialize_log(urls.push(url)) =~= serialize_log(urls) + url + seq!['\n']);
    } else {
        assert(urls.push(url).drop_first() =~= urls.drop_first().push(url));
        lemma_serialize_push(urls.drop_first(), url);
        assert(serialize_log(urls.push(url)) =~= serialize_log(urls) + url + seq!['\n']);
    }
}

/// Cutting at newlines undoes prepending one newline-terminated line.
pub proof fn lemma_split_cons(line: Seq<char>, rest: Seq<char>)
    requires
        !line.contains('\n'),
    ensures
        split_lines(line + seq!['\n'] + rest) == seq![line] + split_lines(rest),
    decreases line.len(),
{
    let content = line + seq!['\n'] + rest;
    if line.len() == 0 {
        assert(content[0] == '\n');
        assert(content.drop_first() =~= rest);
        assert(line =~= Seq::<char>::empty());
        assert(split_lines(content) =~= seq![line] + split_lines(rest));
    } else {
        assert(line[0] != '\n');
        assert(content[0] == line[0]);
        assert(content.drop_first() =~= line.drop_first() + seq!['\n'] + rest);
        assert(forall|i: int|
            0 <= i < line.drop_first().len() ==> line.drop_first()[i] == line[i + 1]);
        assert(!line.drop_first().contains('\n'));
        lemma_split_cons(line.drop_first(), rest);
        let inner = split_lines(content.drop_first());
        assert(inner == seq![line.drop_first()] + split_lines(rest));
        assert(inner.len() >= 1);
        assert(inner[0] == line.drop_first());
        assert(seq![content[0]] + inner[0] =~= line);
        assert(inner.drop_first() =~= split_lines(rest));
        assert(split_lines(content) =~= seq![line] + split_lines(rest));
    }
}

/// A non-empty piece without any newline is one whole line.
pub proof fn lemma_split_single(line: Seq<char>)
    requires
        line.len() > 0,
        !line.contains('\n'),
    ensures
        split_lines(line) == seq![line],
    decreases line.len(),
{
    assert(line[0] != '\n');
    if line.len() == 1 {
        assert(line.drop_first() =~= Seq::<char>::empty());
        assert(split_lines(line.drop_first()) =~= Seq::<Seq<char>>::empty());
        assert(line =~= seq![line[0]]);
        assert(split_lines(line) =~= seq![line]);
    } else {
        assert(forall|i: int|
            0 <= i < line.drop_first().len() ==> line.drop_first()[i] == line[i + 1]);
        assert(!line.drop_first().contains('\n'));
        lemma_split_single(line.drop_first());
        let rest = split_lines(line.drop_first());
        assert(rest.len() == 1);
        assert(seq![line[0]] + rest[0] =~= line);
        assert(rest.drop_first() =~= Seq::<Seq<char>>::empty());
        assert(split_lines(line) =~= seq![line]);
    }
}

pub proof fn lemma_split_serialize(urls: Seq<Seq<char>>)
    requires
        forall|i: int| 0 <= i < urls.len() ==> !(#[trigger] urls[i]).contains('\n'),
    ensures
        split_lines(serialize_log(urls)) == urls,
    decreases urls.len(),
{
    if urls.len() == 0 {
        assert(split_lines(serialize_log(urls)) =~= urls);
    } else {
        assert(serialize_log(urls) == urls[0] + seq!['\n'] + serialize_log(urls.drop_first()));
        lemma_split_cons(urls[0], serialize_log(urls.drop_first()));
        assert(forall|i: int|
            0 <= i < urls.drop_first().len() ==> urls.drop_first()[i] == urls[i + 1]);
        lemma_split_serialize(urls.drop_first());
        assert(seq![urls[0]] + urls.drop_first() =~= urls);
    }
}

/// Filtering keeps a sequence whole when every element passes.
pub proof fn lemma_filter_all<A>(s: Seq<A>, pred: spec_fn(A) -> bool)
    requires
        forall|i: int| 0 <= i < s.len() ==> pred(#[trigger] s[i]),
    ensures
        s.filter(pred) == s,
    decreases s.len(),
{
    reveal(Seq::filter);
    if s.len() == 0 {
        assert(s.filter(pred) =~= s);
    } else {
        assert(forall|i: int|
            0 <= i < s.drop_last().len() ==> pred(#[trigger] s.drop_last()[i]));
        lemma_filter_all(s.drop_last(), pred);
        assert(pred(s.last()));
        assert(s.drop_last().push(s.last()) =~= s);
    }
}

/// Deduplication keeps a duplicate-free sequence whole.
pub proof fn lemma_dedup_distinct(lines: Seq<Seq<char>>)
    requires
        lines.no_duplicates(),
    ensures
        dedup_lines(lines) == lines,
    decreases lines.len(),
{
    if lines.len() > 0 {
        assert(lines.drop_last().no_duplicates());
        lemma_dedup_distinct(lines.drop_last());
        assert(!lines.drop_last().contains(lines.last())) by {
            if lines.drop_last().contains(lines.last()) {
                let i = choose|i: int|
                    0 <= i < lines.drop_last().len() && lines.drop_last()[i] == lines.last();
                assert(lines[i] == lines[lines.len() - 1]);
            }
        }
        assert(dedup_lines(lines) =~= lines);
    }
}

/// An element is kept by deduplication exactly when it occurs at all.
pub proof fn lemma_dedup_contains(lines: Seq<Seq<char>>, x: Seq<char>)
    ensures
        dedup_lines(lines).contains(x) == lines.contains(x),
    decreases lines.len(),
{
    if lines.len() > 0 {
        lemma_dedup_contains(lines.drop_last(), x);
        let rest = dedup_lines(lines.drop_last());
        if lines.contains(x) {
            let i = choose|i: int| 0 <= i < lines.len() && lines[i] == x;
            if i < lines.len() - 1 {
                assert(lines.drop_last()[i] == x);
                assert(rest.contains(x));
                if !rest.contains(lines.last()) {
                    let j = choose|j: int| 0 <= j < rest.len() && rest[j] == x;
                    assert(rest.push(lines.last())[j] == x);
                }
            } else {
                assert(x == lines.last());
                if !rest.contains(lines.last()) {
                    assert(rest.push(lines.last()).last() == x);
                }
            }
        }
        if dedup_lines(lines).contains(x) {
            if rest.contains(x) {
                let i = choose|i: int|
                    0 <= i < lines.drop_last().len() && lines.drop_last()[i] == x;
                assert(lines[i] == x);
            } else {
                let j = choose|j: int|
                    0 <= j < dedup_lines(lines).len() && dedup_lines(lines)[j] == x;
                assert(dedup_lines(lines) == rest.push(lines.last()));
                assert(x == lines.last());
                assert(lines[lines.len() - 1] == x);
            }
        }
    }
}

/// What deduplication yields: the same members, each exactly once.
pub proof fn lemma_dedup_props(lines: Seq<Seq<char>>)
    ensures
        dedup_lines(lines).no_duplicates(),
        forall|x: Seq<char>| dedup_lines(lines).contains(x) == lines.contains(x),
    decreases lines.len(),
{
    if lines.len() > 0 {
        lemma_dedup_props(lines.drop_last());
        let rest = dedup_lines(lines.drop_last());
        if !rest.contains(lines.last()) {
            let d = rest.push(lines.last());
            assert forall|i: int, j: int|
                0 <= i < d.len() && 0 <= j < d.len() && i != j implies d[i] != d[j] by {
                if i == d.len() - 1 && d[j] == lines.last() {
                    assert(rest[j] == lines.last());
                }
                if j == d.len() - 1 && d[i] == lines.last() {
                    assert(rest[i] == lines.last());
                }
            }
            assert(d.no_duplicates());
        }
    }
    assert forall|x: Seq<char>| dedup_lines(lines).contains(x) == lines.contains(x) by {
        lemma_dedup_contains(lines, x);
    }
}

/// The round-trip law: content written for a well-formed set of URLs reads
/// back as exactly that set, and writing what was read reproduces the content
/// letter for letter.
pub proof fn lemma_log_round_trip(urls: Seq<Seq<char>>)
    requires
        urls.no_duplicates(),
        forall|i: int| 0 <= i < urls.len() ==> line_ok(#[trigger] urls[i]),
    ensures
        parse_log(serialize_log(urls)) == urls,
        serialize_log(parse_log(serialize_log(urls))) == serialize_log(urls),
{
    lemma_split_serialize(urls);
    lemma_filter_all(urls, |line: Seq<char>| line.len() > 0);
    lemma_dedup_distinct(urls);
}

/// Write the log content for `urls`: each entry followed by a newline, in
/// order.
pub fn save_urls(urls: &Vec<String>) -> (content: String)
    ensures
        content@ == serialize_log(urls.deep_view()),
{
    let mut content = String::new();
    let mut i: usize = 0;
    proof {
        assert(urls.deep_view().take(0) =~= Seq::<Seq<char>>::empty());
    }
    while i < urls.len()
        invariant
            i <= urls.len(),
            content@ == serialize_log(urls.deep_view().take(i as int)),
        decreases urls.len() - i,
    {
        content.append(urls[i].as_str());
        content.append("\n");
        proof {
            reveal_strlit("\n");
            assert("\n"@ =~= seq!['\n']);
            assert(urls.deep_view()[i as int] == urls@[i as int]@);
            assert(urls.deep_view().take(i + 1)
                =~= urls.deep_view().take(i as int).push(urls@[i as int]@));
            lemma_serialize_push(urls.deep_view().take(i as int), urls@[i as int]@);
        }
        i += 1;
    }
    proof {
        assert(urls.deep_view().take(urls.len() as int) =~= urls.deep_view());
    }
    content
}

fn split_lines_exec(content: &str) -> (lines: Vec<String>)
    ensures
        lines.deep_view() == split_lines(content@),
{
    let n = content.unicode_len();
    let mut lines: Vec<String> = Vec::new();
    let mut i: usize = 0;
    proof {
        assert(content@.skip(0) =~= content@);
    }
    while i < n
        invariant
            i <= n,
            n == content@.len(),
            split_lines(content@) == lines.deep_view() + split_lines(content@.skip(i as int)),
        decreases n - i,
    {
        let mut j: usize = i;
        while j < n && content.get_char(j) != '\n'
            invariant
                i <= j <= n,
                n == content@.len(),
                forall|k: int| i <= k < j ==> content@[k] != '\n',
            decreases n - j,
        {
            j += 1;
        }
        let line = content.substring_char(i, j).to_owned();
        proof {
            assert(forall|k: int| 0 <= k < line@.len() ==> line@[k] == content@[i + k]);
            assert(!line@.contains('\n'));
        }
        lines.push(line);
        proof {
            assert(lines.deep_view()
                =~= lines.deep_view().take(lines.len() - 1).push(line@));
        }
        if j < n {
            proof {
                assert(content@[j as int] == '\n');
                assert(content@.skip(i as int)
                    =~= line@ + seq!['\n'] + content@.skip(j + 1));
                lemma_split_cons(line@, content@.skip(j + 1));
                assert(lines.deep_view().take(lines.len() - 1).push(line@)
                    =~= lines.deep_view().take(lines.len() - 1) + seq![line@]);
            }
            j += 1;
        } else {
            proof {
                assert(content@.skip(i as int) =~= line@);
                assert(line@.len() > 0);
                lemma_split_single(line@);
                assert(content@.skip(n as int) =~= Seq::<char>::empty());
                assert(lines.deep_view().take(lines.len() - 1).push(line@)
                    =~= lines.deep_view().take(lines.len() - 1) + seq![line@]);
            }
        }
        i = j;
    }
    proof {
        assert(content@.skip(n as int) =~= Seq::<char>::empty());
        assert(lines.deep_view() + split_lines(content@.skip(n as int)) =~= lines.deep_view());
    }
    lines
}

fn sanitize_lines(lines: &Vec<String>) -> (urls: Vec<String>)
    ensures
        urls.deep_view() == dedup_lines(
            lines.deep_view().filter(|line: Seq<char>| line.len() > 0),
        ),
{
    let pred = Ghost(|line: Seq<char>| line.len() > 0);
    let mut urls: Vec<String> = Vec::new();
    let mut i: usize = 0;
    proof {
        reveal(Seq::filter);
        assert(lines.deep_view().take(0) =~= Seq::<Seq<char>>::empty());
    }
    while i < lines.len()
        invariant
            i <= lines.len(),
            urls.deep_view() == dedup_lines(lines.deep_view().take(i as int).filter(pred@)),
            pred@ == (|line: Seq<char>| line.len() > 0),
        decreases lines.len() - i,
    {
        let ghost prefix = lines.deep_view().take(i as int);
        let ghost line_view = lines.deep_view()[i as int];
        proof {
            reveal(Seq::filter);
            assert(line_view == lines@[i as int]@);
            assert(lines.deep_view().take(i + 1) =~= prefix.push(line_view));
            assert(prefix.push(line_view).drop_last() =~= prefix);
            assert(prefix.push(line_view).last() == line_view);
        }
        if !lines[i].as_str().is_empty() {
            let keep = !contains_str(&urls, lines[i].as_str());
            proof {
                assert(prefix.push(line_view).filter(pred@)
                    =~= prefix.filter(pred@).push(line_view));
                assert(prefix.filter(pred@).push(line_view).drop_last()
                    =~= prefix.filter(pred@));
            }
            if keep {
                urls.push(lines[i].clone());
                proof {
                    assert(urls.deep_view()
                        =~= dedup_lines(prefix.filter(pred@)).push(line_view));
                }
            }
        } else {
            proof {
                assert(prefix.push(line_view).filter(pred@) =~= prefix.filter(pred@));
            }
        }
        i += 1;
    }
    proof {
        assert(lines.deep_view().take(lines.len() as int) =~= lines.deep_view());
    }
    urls
}

/// Read log content back into the list of URLs it holds: one per line, empty
/// lines skipped, repeated lines kept once, in the file's order.
pub fn load_urls(content: &str) -> (urls: Vec<String>)
    ensures
        urls.deep_view() == parse_log(content@),
        urls.deep_view().no_duplicates(),
{
    let lines = split_lines_exec(content);
    let urls = sanitize_lines(&lines);
    proof {
        lemma_dedup_props(lines.deep_view().filter(|line: Seq<char>| line.len() > 0));
    }
    urls
}

} // verus!
