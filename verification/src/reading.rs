//! What is read from a text: its lines, fields and words, the rows of a process list, and the counts
//! taken of a source tree.

use vstd::prelude::*;
use crate::audit;
use crate::audit::{SourceFileModel, Tally};
use crate::decimal;
use crate::oracle;
use crate::paths;
use crate::ps;
use crate::ps::{ClockModel, RowModel};
use crate::text;

verus! {

// ---------------------------------------------------------------------------------------------
// Lines, fields, words
// ---------------------------------------------------------------------------------------------

/// The text does not hold the character.
pub open spec fn without(s: Seq<char>, c: char) -> bool {
    forall|i: int| 0 <= i < s.len() ==> #[trigger] s[i] != c
}

/// The texts one after another, each with a line feed behind it.
pub open spec fn written(list: Seq<Seq<char>>) -> Seq<char>
    decreases list.len(),
{
    if list.len() == 0 {
        Seq::empty()
    } else {
        list[0] + seq!['\n'] + written(list.skip(1))
    }
}

/// Lines that were written are read back, also where the last line feed is missing.
pub proof fn law_written_lines_are_read_back(list: Seq<Seq<char>>, last: Seq<char>)
    requires
        forall|i: int|
            0 <= i < list.len() ==> without(#[trigger] list[i], '\n') && without(list[i], '\r'),
        last.len() > 0,
        without(last, '\n'),
    ensures
        text::lines(written(list)) == list,
        text::lines(written(list) + last) == list.push(last),
    decreases list.len(),
{
    let p = text::other_than('\n');
    if list.len() == 0 {
        text::lemma_run_len_is(last, p, last.len());
        assert(written(list) + last =~= last);
        assert(text::lines(last) =~= seq![last]);
        assert(list.push(last) =~= seq![last]);
        assert(text::lines(written(list)) =~= list);
    } else {
        let rest = list.skip(1);
        let (a, b) = (written(rest), written(rest) + last);
        assert forall|i: int| 0 <= i < rest.len() implies without(#[trigger] rest[i], '\n')
            && without(rest[i], '\r') by {
            assert(rest[i] == list[i + 1]);
        }
        law_written_lines_are_read_back(rest, last);
        assert(without(list[0], '\n') && without(list[0], '\r'));
        lemma_first_line(list[0], a);
        lemma_first_line(list[0], b);
        assert(written(list) + last =~= list[0] + seq!['\n'] + b);
        assert(seq![list[0]] + rest =~= list);
        assert(seq![list[0]] + rest.push(last) =~= list.push(last));
    }
}

/// A line feed ends a line, and a carriage return before it is no part of the line.
pub proof fn lemma_first_line(line: Seq<char>, rest: Seq<char>)
    requires
        without(line, '\n'),
        without(line, '\r'),
    ensures
        text::lines(line + seq!['\n'] + rest) == seq![line] + text::lines(rest),
        text::lines(line + seq!['\r', '\n'] + rest) == seq![line] + text::lines(rest),
{
    let p = text::other_than('\n');
    let s = line + seq!['\n'] + rest;
    assert forall|i: int| 0 <= i < line.len() implies p(#[trigger] s[i]) by {
        assert(s[i] == line[i]);
    }
    text::lemma_run_len_is(s, p, line.len());
    assert(s.take(line.len() as int) =~= line);
    assert(s.skip(line.len() as int + 1) =~= rest);
    let t = line + seq!['\r', '\n'] + rest;
    assert forall|i: int| 0 <= i < line.len() + 1 implies p(#[trigger] t[i]) by {
        if i < line.len() {
            assert(t[i] == line[i]);
        }
    }
    text::lemma_run_len_is(t, p, line.len() + 1);
    let head = t.take(line.len() as int + 1);
    assert(head.last() == '\r');
    assert(head.drop_last() =~= line);
    assert(t.skip(line.len() as int + 2) =~= rest);
}

/// Carriage returns before the line feeds make no difference to the lines.
pub proof fn law_carriage_returns_make_no_difference(line: Seq<char>, rest: Seq<char>)
    requires
        without(line, '\n'),
        without(line, '\r'),
    ensures
        text::lines(line + seq!['\r', '\n'] + rest) == text::lines(line + seq!['\n'] + rest),
{
    lemma_first_line(line, rest);
}

/// A separator parts two fields, and without one there is one field.
pub proof fn law_separators_part_fields(first: Seq<char>, sep: char, rest: Seq<char>)
    requires
        without(first, sep),
    ensures
        text::fields(first, sep) == seq![first],
        text::fields(first + seq![sep] + rest, sep) == seq![first] + text::fields(rest, sep),
        text::halves(first, sep) is None,
        text::halves(first + seq![sep] + rest, sep) == Some((first, rest)),
{
    let p = text::other_than(sep);
    text::lemma_run_len_is(first, p, first.len());
    let s = first + seq![sep] + rest;
    assert forall|i: int| 0 <= i < first.len() implies p(#[trigger] s[i]) by {
        assert(s[i] == first[i]);
    }
    text::lemma_run_len_is(s, p, first.len());
    assert(s.take(first.len() as int) =~= first);
    assert(s.skip(first.len() as int + 1) =~= rest);
}

/// The words with a space before each of them.
pub open spec fn spaced(list: Seq<Seq<char>>) -> Seq<char>
    decreases list.len(),
{
    if list.len() == 0 {
        Seq::empty()
    } else {
        seq![' '] + list[0] + spaced(list.skip(1))
    }
}

/// Words with spaces before them are read back, and so is a word at the start of the line.
pub proof fn law_spaced_words_are_read_back(first: Seq<char>, list: Seq<Seq<char>>)
    requires
        text::is_word(first),
        forall|i: int| 0 <= i < list.len() ==> text::is_word(#[trigger] list[i]),
    ensures
        text::words(spaced(list)) == list,
        text::words(first + spaced(list)) == seq![first] + list,
    decreases list.len(),
{
    if list.len() == 0 {
        text::lemma_one_word(first);
        assert(first + spaced(list) =~= first);
        assert(text::words(spaced(list)) =~= list);
        assert(seq![first] + list =~= seq![first]);
    } else {
        let rest = list.skip(1);
        assert forall|i: int| 0 <= i < rest.len() implies text::is_word(#[trigger] rest[i]) by {
            assert(rest[i] == list[i + 1]);
        }
        assert(text::is_word(list[0]));
        law_spaced_words_are_read_back(list[0], rest);
        let s = spaced(list);
        assert(s[0] == ' ');
        text::lemma_leading_white(s);
        assert(s.skip(1) =~= list[0] + spaced(rest));
        assert(seq![list[0]] + rest =~= list);
        text::lemma_first_word(first, s);
    }
}

// ---------------------------------------------------------------------------------------------
// Numerals
// ---------------------------------------------------------------------------------------------

/// Numerals are those of the decimal system, read as they are written.
pub proof fn law_numerals_are_decimal(n: nat, d: nat)
    requires
        d < 10,
    ensures
        decimal::decimal(d) == seq![('0' as u32 + d) as char],
        n > 0 ==> decimal::decimal(10 * n + d) == decimal::decimal(n).push(
            ('0' as u32 + d) as char,
        ),
        decimal::numeral(decimal::decimal(n)) == Some(n),
        decimal::numeral(seq!['+'] + decimal::decimal(n)) == Some(n),
        decimal::numeral(seq!['-'] + decimal::decimal(n)) is None,
        decimal::numeral(Seq::empty()) is None,
{
    decimal::lemma_decimal(n);
    if n > 0 {
        assert((10 * n + d) / 10 == n && (10 * n + d) % 10 == d);
    }
    let s = decimal::decimal(n);
    assert((seq!['+'] + s).skip(1) =~= s);
    assert((seq!['-'] + s)[0] == '-');
    assert(!text::digit((seq!['-'] + s)[0]));
}

/// A number is read where it does not exceed the limit, and refused where it does.
pub proof fn law_too_large_numbers_are_refused(n: nat, max: nat)
    ensures
        n <= max ==> decimal::numeral_within(decimal::decimal(n), max) == Some(n),
        n > max ==> decimal::numeral_within(decimal::decimal(n), max) is None,
{
    decimal::lemma_decimal(n);
}

/// Hexadecimal digits go on from nine with small letters.
pub proof fn law_hexadecimal_digits_are_small(n: nat, d: nat)
    requires
        d < 16,
    ensures
        d < 10 ==> decimal::hexadecimal(d) == seq![('0' as u32 + d) as char],
        d >= 10 ==> decimal::hexadecimal(d) == seq![('a' as u32 + (d - 10)) as char],
        n > 0 ==> decimal::hexadecimal(16 * n + d) == decimal::hexadecimal(n)
            + decimal::hexadecimal(d),
{
    if n > 0 {
        assert((16 * n + d) / 16 == n && (16 * n + d) % 16 == d);
        assert(decimal::hexadecimal(16 * n + d) =~= decimal::hexadecimal(n)
            + decimal::hexadecimal(d));
    }
}

// ---------------------------------------------------------------------------------------------
// Process lists
// ---------------------------------------------------------------------------------------------

/// A processor time has minutes and seconds, and may have hours before them and days before those.
pub proof fn law_clocks_count_from_the_seconds(
    days: Seq<char>,
    hours: Seq<char>,
    minutes: Seq<char>,
    seconds: Seq<char>,
)
    requires
        without(days, '-') && without(hours, '-') && without(minutes, '-') && without(
            seconds,
            '-',
        ),
        without(days, ':') && without(hours, ':') && without(minutes, ':') && without(
            seconds,
            ':',
        ),
    ensures
        ps::clock(minutes + seq![':'] + seconds) == Some(
            ClockModel { days: None, hours: None, minutes, seconds },
        ),
        ps::clock(hours + seq![':'] + (minutes + seq![':'] + seconds)) == Some(
            ClockModel { days: None, hours: Some(hours), minutes, seconds },
        ),
        ps::clock(days + seq!['-'] + (hours + seq![':'] + (minutes + seq![':'] + seconds))) == Some(
            ClockModel { days: Some(days), hours: Some(hours), minutes, seconds },
        ),
        ps::clock(seconds) is None,
{
    let short = minutes + seq![':'] + seconds;
    let long = hours + seq![':'] + short;
    law_separators_part_fields(seconds, ':', Seq::empty());
    law_separators_part_fields(minutes, ':', seconds);
    law_separators_part_fields(hours, ':', short);
    assert(text::fields(short, ':') =~= seq![minutes, seconds]);
    assert(text::fields(long, ':') =~= seq![hours, minutes, seconds]);
    assert(without(short, '-'));
    assert(without(long, '-'));
    law_separators_part_fields(seconds, '-', Seq::empty());
    law_separators_part_fields(short, '-', Seq::empty());
    law_separators_part_fields(long, '-', Seq::empty());
    law_separators_part_fields(days, '-', long);
}

/// A line of the process list gives the process, its parent, its resident size, its processor time
/// and its command in this order, and what follows is its arguments.
pub proof fn law_rows_have_their_columns_in_order(
    pid: u32,
    ppid: u32,
    rss: u64,
    time: Seq<char>,
    comm: Seq<char>,
    args: Seq<Seq<char>>,
)
    requires
        text::is_word(time),
        text::is_word(comm),
        ps::clock(time) is Some,
        forall|i: int| 0 <= i < args.len() ==> text::is_word(#[trigger] args[i]),
    ensures
        ps::row(
            decimal::decimal(pid as nat) + spaced(
                seq![decimal::decimal(ppid as nat), decimal::decimal(rss as nat), time, comm]
                    + args,
            ),
        ) == Some(
            RowModel {
                pid,
                ppid,
                rss_kib: rss,
                time: ps::clock(time)->Some_0,
                comm,
                args: text::join(args, " "@),
            },
        ),
{
    let (a, b, c) = (
        decimal::decimal(pid as nat),
        decimal::decimal(ppid as nat),
        decimal::decimal(rss as nat),
    );
    decimal::lemma_decimal(pid as nat);
    decimal::lemma_decimal(ppid as nat);
    decimal::lemma_decimal(rss as nat);
    lemma_numbers_are_words(pid as nat);
    lemma_numbers_are_words(ppid as nat);
    lemma_numbers_are_words(rss as nat);
    let list = seq![b, c, time, comm] + args;
    assert forall|i: int| 0 <= i < list.len() implies text::is_word(#[trigger] list[i]) by {
        if i >= 4 {
            assert(list[i] == args[i - 4]);
        }
    }
    law_spaced_words_are_read_back(a, list);
    let w = text::words(a + spaced(list));
    assert(w == seq![a] + list);
    assert(w[0] == a && w[1] == b && w[2] == c && w[3] == time && w[4] == comm);
    assert(w.skip(5) =~= args);
}

proof fn lemma_numbers_are_words(n: nat)
    ensures
        text::is_word(decimal::decimal(n)),
{
    decimal::lemma_decimal(n);
    let s = decimal::decimal(n);
    assert forall|i: int| 0 <= i < s.len() implies !text::white(#[trigger] s[i]) by {
        assert(text::digit(s[i]));
    }
}

/// A line with fewer than five words is no row.
pub proof fn law_short_lines_are_no_rows(first: Seq<char>, list: Seq<Seq<char>>)
    requires
        text::is_word(first),
        forall|i: int| 0 <= i < list.len() ==> text::is_word(#[trigger] list[i]),
        list.len() < 4,
    ensures
        ps::row(first + spaced(list)) is None,
{
    law_spaced_words_are_read_back(first, list);
}

/// In the kernel's line on a process, the user and system times are the twelfth and thirteenth words
/// behind the command's name, whatever that name holds.
pub proof fn law_ticks_are_counted_behind_the_name(name: Seq<char>, list: Seq<Seq<char>>)
    requires
        list.len() >= 13,
        forall|i: int|
            0 <= i < list.len() ==> text::is_word(#[trigger] list[i]) && without(list[i], ')'),
    ensures
        ps::ticks(name + seq![')'] + spaced(list)) == Some((list[11], list[12])),
{
    lemma_spaced_without(list, ')');
    lemma_last_field(name, spaced(list));
    assert(text::is_word(list[0]));
    law_spaced_words_are_read_back(list[0], list);
}

/// Without so many words behind the name, or without a name, there are no times.
pub proof fn law_short_lines_have_no_ticks(name: Seq<char>, list: Seq<Seq<char>>, line: Seq<char>)
    requires
        list.len() < 13,
        forall|i: int|
            0 <= i < list.len() ==> text::is_word(#[trigger] list[i]) && without(list[i], ')'),
        without(line, ')'),
    ensures
        ps::ticks(name + seq![')'] + spaced(list)) is None,
        ps::ticks(line) is None,
{
    lemma_spaced_without(list, ')');
    lemma_last_field(name, spaced(list));
    law_spaced_words_are_read_back(seq!['x'], list);
    law_separators_part_fields(line, ')', Seq::empty());
}

proof fn lemma_spaced_without(list: Seq<Seq<char>>, c: char)
    requires
        c != ' ',
        forall|i: int| 0 <= i < list.len() ==> without(#[trigger] list[i], c),
    ensures
        without(spaced(list), c),
    decreases list.len(),
{
    if list.len() > 0 {
        let rest = list.skip(1);
        assert forall|i: int| 0 <= i < rest.len() implies without(#[trigger] rest[i], c) by {
            assert(rest[i] == list[i + 1]);
        }
        lemma_spaced_without(rest, c);
        assert(without(list[0], c));
        let s = spaced(list);
        let n = list[0].len() as int;
        assert forall|i: int| 0 <= i < s.len() implies #[trigger] s[i] != c by {
            if 0 < i <= n {
                assert(s[i] == list[0][i - 1]);
            } else if i > n {
                assert(s[i] == spaced(rest)[i - n - 1]);
            }
        }
    }
}

proof fn lemma_last_field(name: Seq<char>, rest: Seq<char>)
    requires
        without(rest, ')'),
    ensures
        text::fields(name + seq![')'] + rest, ')').len() > 1,
        text::fields(name + seq![')'] + rest, ')').last() == rest,
    decreases name.len(),
{
    let s = name + seq![')'] + rest;
    let p = text::other_than(')');
    let n = text::run_len(name, p) as int;
    text::lemma_run_len(name, p);
    law_separators_part_fields(rest, ')', Seq::empty());
    if n >= name.len() {
        assert(without(name, ')')) by {
            assert forall|i: int| 0 <= i < name.len() implies #[trigger] name[i] != ')' by {
                assert(p(name[i]));
            }
        }
        law_separators_part_fields(name, ')', rest);
        assert((seq![name] + seq![rest]).last() == rest);
    } else {
        let head = name.take(n);
        let tail = name.skip(n + 1);
        assert(without(head, ')')) by {
            assert forall|i: int| 0 <= i < head.len() implies #[trigger] head[i] != ')' by {
                assert(p(name[i]));
            }
        }
        assert(name[n] == ')');
        let after = tail + seq![')'] + rest;
        assert(s =~= head + seq![')'] + after);
        lemma_last_field(tail, rest);
        law_separators_part_fields(head, ')', after);
        assert((seq![head] + text::fields(after, ')')).last() == text::fields(after, ')').last());
    }
}

/// A pane's size is read as rows before columns, up to the colon behind them, and only where both
/// fit.
pub proof fn law_sizes_are_rows_before_columns(rows: nat, cols: nat, rest: Seq<char>)
    ensures
        ({
            let shown = decimal::decimal(rows) + " "@ + decimal::decimal(cols) + seq![':'] + rest;
            &&& rows <= 65535 && cols <= 65535 ==> oracle::size_in(shown) == Some((rows, cols))
            &&& rows > 65535 || cols > 65535 ==> oracle::size_in(shown) is None
        }),
{
    reveal_strlit(" ");
    let (a, b) = (decimal::decimal(rows), decimal::decimal(cols));
    let head = a + " "@ + b;
    decimal::lemma_decimal(rows);
    decimal::lemma_decimal(cols);
    lemma_numbers_are_words(rows);
    lemma_numbers_are_words(cols);
    assert(without(head, ':')) by {
        assert forall|i: int| 0 <= i < head.len() implies #[trigger] head[i] != ':' by {
            if i < a.len() {
                assert(head[i] == a[i]);
                assert(text::digit(a[i]));
            } else if i > a.len() {
                assert(head[i] == b[i - a.len() - 1]);
                assert(text::digit(b[i - a.len() - 1]));
            }
        }
    }
    law_separators_part_fields(head, ':', rest);
    text::lemma_two_words(a, b);
    assert(text::words(head)[0] == a && text::words(head)[1] == b);
}

// ---------------------------------------------------------------------------------------------
// Source trees
// ---------------------------------------------------------------------------------------------

/// The text stands in the other one from the position on.
pub open spec fn stands(s: Seq<char>, needle: Seq<char>, i: int) -> bool {
    &&& 0 <= i
    &&& i + needle.len() <= s.len()
    &&& forall|k: int| 0 <= k < needle.len() ==> s[i + k] == #[trigger] needle[k]
}

/// The test part of a source starts at the first line that opens it; a source without one is all
/// production.
pub proof fn law_tests_start_at_their_mark(source: Seq<char>)
    ensures
        ({
            let (production, tests) = audit::halves(source);
            &&& production + tests == source
            &&& tests.len() > 0 ==> stands(tests, "\n#[cfg(test)]"@, 0)
            &&& tests.len() > 0 ==> forall|i: int|
                0 <= i < production.len() ==> !#[trigger] stands(
                    source,
                    "\n#[cfg(test)]"@,
                    i,
                )
            &&& tests.len() == 0 ==> forall|i: int|
                0 <= i ==> !#[trigger] stands(source, "\n#[cfg(test)]"@, i)
        }),
{
    reveal_strlit("\n#[cfg(test)]");
    reveal_strlit("");
    let mark = "\n#[cfg(test)]"@;
    text::lemma_index_of(source, mark);
    assert forall|i: int| 0 <= i implies stands(source, mark, i) == text::at(
        source,
        mark,
        i,
    ) by {
        lemma_stands(source, mark, i);
    }
    let (production, tests) = audit::halves(source);
    assert(production + tests =~= source);
    match text::index_of(source, mark) {
        Some(i) => {
            assert(text::at(source, mark, i as int));
            assert(source.subrange(i as int, i as int + mark.len() as int) =~= tests.subrange(
                0,
                mark.len() as int,
            ));
            lemma_stands(tests, mark, 0);
        },
        None => {},
    }
}

proof fn lemma_stands(s: Seq<char>, needle: Seq<char>, i: int)
    requires
        0 <= i,
    ensures
        stands(s, needle, i) == text::at(s, needle, i),
{
    if i + needle.len() <= s.len() {
        let part = s.subrange(i, i + needle.len());
        if stands(s, needle, i) {
            assert(part =~= needle) by {
                assert forall|k: int| 0 <= k < needle.len() implies part[k] == needle[k] by {
                    assert(part[k] == s[i + k]);
                }
            }
        }
        if text::at(s, needle, i) {
            assert forall|k: int| 0 <= k < needle.len() implies s[i + k] == needle[k] by {
                assert(part[k] == s[i + k]);
            }
        }
    }
}

/// A directory of other people's work, of results or of history, at whatever depth, keeps a file out
/// of all counts.
pub proof fn law_foreign_directories_are_left_out(
    root: Seq<char>,
    file: SourceFileModel,
    rel: Seq<Seq<char>>,
    i: int,
)
    requires
        paths::below(root, file.path) == Some(rel),
        0 <= i < rel.len(),
        rel[i] == ".git"@ || rel[i] == "target"@ || rel[i] == "vendor"@ || rel[i]
            == "node_modules"@ || rel[i] == "dist"@ || rel[i] == "zig-out"@ || (i > 0 && rel[i - 1]
            == "docs"@ && (rel[i] == "ja"@ || rel[i] == "zh-cn"@ || rel[i] == "zh-CN"@)),
    ensures
        audit::file_tally(root, file).files == 0,
        audit::file_tally(root, file).production == 0,
        audit::file_tally(root, file).tests == 0,
        audit::file_tally(root, file).documentation == 0,
{
    assert(rel.take(rel.len() as int) =~= rel);
    if i > 0 && rel[i - 1] == "docs"@ {
        assert(audit::language(rel[i]) ==> audit::translated(rel));
    }
    assert(audit::excluded(rel));
    assert(audit::excluded(rel.take(rel.len() as int)));
}

/// A Rust file counts once. In a directory of tests all its lines are lines of tests; elsewhere the
/// lines before its tests are production lines, and only in those are the other things counted.
pub proof fn law_rust_files_count_their_production_text(
    root: Seq<char>,
    file: SourceFileModel,
    rel: Seq<Seq<char>>,
)
    requires
        paths::below(root, file.path) == Some(rel),
        audit::walked(rel),
        audit::extension(file.path) == "rs"@,
    ensures
        ({
            let t = audit::file_tally(root, file);
            let (production, tests) = audit::halves(file.text);
            &&& t.files == 1
            &&& t.documentation == 0
            &&& rel.contains("tests"@) ==> t.production == 0 && t.tests == text::lines(
                file.text,
            ).len() && t.unsafe_blocks == 0 && t.unwraps == 0 && t.network == 0 && t.launches == 0
            &&& !rel.contains("tests"@) ==> t.production == text::lines(production).len() && t.tests
                == text::lines(tests).len() && t.unsafe_blocks == text::occurrences(
                production,
                "unsafe {"@,
            ) && t.unwraps == text::occurrences(production, ".unwrap()"@) && t.launches
                == text::occurrences(production, "Command::new"@) && t.network == text::occurrences(
                production,
                "TcpListener"@,
            ) + text::occurrences(production, "TcpStream"@) + text::occurrences(
                production,
                "reqwest"@,
            ) + text::occurrences(production, "http://"@) + text::occurrences(
                production,
                "https://"@,
            )
        }),
{
}

/// Markdown counts as documentation, line by line, and not as Rust; in `.github` and `.local` it
/// does not count.
pub proof fn law_markdown_counts_as_documentation(
    root: Seq<char>,
    file: SourceFileModel,
    rel: Seq<Seq<char>>,
)
    requires
        paths::below(root, file.path) == Some(rel),
        audit::walked(rel),
        audit::extension(file.path) == "md"@ || audit::extension(file.path) == "mdx"@,
        rel.len() > 0,
    ensures
        ({
            let t = audit::file_tally(root, file);
            &&& t.files == 0 && t.production == 0 && t.tests == 0
            &&& rel[0] == ".github"@ || rel[0] == ".local"@ ==> t.documentation == 0
            &&& rel[0] != ".github"@ && rel[0] != ".local"@ ==> t.documentation == text::lines(
                file.text,
            ).len()
        }),
{
    reveal_strlit("rs");
    reveal_strlit("md");
    reveal_strlit("mdx");
    assert("rs"@[0] != "md"@[0]);
    assert("rs"@[0] != "mdx"@[0]);
    let head = rel.take(1);
    assert(head[0] == rel[0]);
    assert(seq![".github"@][0] == ".github"@);
    assert(seq![".local"@][0] == ".local"@);
    if rel[0] == ".github"@ {
        assert(head =~= seq![".github"@]);
    }
    if rel[0] == ".local"@ {
        assert(head =~= seq![".local"@]);
    }
}

/// The counts of a tree are the sums of those of its files.
pub proof fn law_counts_add_up(root: Seq<char>, files: Seq<SourceFileModel>, file: SourceFileModel)
    ensures
        ({
            let (before, after, own) = (
                audit::tally(root, files),
                audit::tally(root, files.push(file)),
                audit::file_tally(root, file),
            );
            &&& after.files == before.files + own.files
            &&& after.production == before.production + own.production
            &&& after.tests == before.tests + own.tests
            &&& after.documentation == before.documentation + own.documentation
            &&& after.unsafe_blocks == before.unsafe_blocks + own.unsafe_blocks
            &&& after.unwraps == before.unwraps + own.unwraps
            &&& after.network == before.network + own.network
            &&& after.launches == before.launches + own.launches
        }),
        audit::tally(root, Seq::empty()) == (Tally {
            files: 0,
            production: 0,
            tests: 0,
            documentation: 0,
            unsafe_blocks: 0,
            unwraps: 0,
            network: 0,
            launches: 0,
        }),
{
    assert(files.push(file).drop_last() =~= files);
}

/// Each count is recorded under its own name.
pub proof fn law_counts_are_recorded_under_their_names(
    root: Seq<char>,
    files: Seq<SourceFileModel>,
    lock: Option<Seq<char>>,
    manifest: Option<Seq<char>>,
)
    requires
        audit::tally(root, files).files > 0,
        audit::tally(root, files).files <= u64::MAX,
        audit::tally(root, files).production <= u64::MAX,
        audit::tally(root, files).tests <= u64::MAX,
        audit::tally(root, files).documentation <= u64::MAX,
        audit::tally(root, files).unsafe_blocks <= u64::MAX,
        audit::tally(root, files).unwraps <= u64::MAX,
        audit::tally(root, files).network <= u64::MAX,
        audit::tally(root, files).launches <= u64::MAX,
    ensures
        ({
            let t = audit::tally(root, files);
            let a = audit::analysis(root, files, lock, manifest);
            &&& a.rust_source_files == Some(t.files as u64)
            &&& a.first_party_rust_lines == Some(t.production as u64)
            &&& a.rust_test_lines == Some(t.tests as u64)
            &&& a.documentation_lines == t.documentation
            &&& a.unsafe_blocks == Some(t.unsafe_blocks as u64)
            &&& a.production_unwrap_calls == Some(t.unwraps as u64)
            &&& a.network_api_references == Some(t.network as u64)
            &&& a.process_launch_references == Some(t.launches as u64)
            &&& lock is None <==> a.lockfile_packages is None
        }),
{
}

} // verus!
