//! The content transformer: text and rules in, normalised text out.

use crate::editorconfig::{get_format_rules, rules_for_path, ConfigFile, FormatRules};
use crate::text::{
    all_newline_free, char_is_whitespace, drop_trailing_empty, ends_with_cr, join_lines,
    lemma_drop_trailing_empty, lemma_first_newline_at, lemma_join_push, lemma_lines_newline_free,
    lemma_join_len, lemma_lines_of_joined, lemma_lines_of_terminated, lemma_skip_leading_empty,
    lemma_trim_end, lemma_written_len_drop, lemma_written_len_pointwise, lemma_written_len_skip,
    lines, newline_free, skip_leading_empty, strip_cr, trim_all, trim_end, written_len,
};
use vstd::prelude::*;
use vstd::utf8::{decode_utf8, encode_utf8, valid_utf8};

verus! {

broadcast use vstd::string::group_string_axioms;

/// `String::push` of the standard library appends the given character to the
/// end of the string.
pub assume_specification[ String::push ](s: &mut String, ch: char)
    ensures
        final(s)@ == old(s)@.push(ch),
;

/// The lines of `s` that formatting under `r` keeps: all of them but the
/// empty ones at the end and, where `r` removes leading blank lines, the empty
/// ones at the start.
pub open spec fn kept_lines(s: Seq<char>, r: FormatRules) -> Seq<Seq<char>> {
    drop_trailing_empty(
        if r.remove_leading_newlines {
            skip_leading_empty(lines(s))
        } else {
            lines(s)
        },
    )
}

/// The lines that formatting `s` under `r` writes out: the kept lines, each
/// trimmed at its end where `r` removes trailing white space.
pub open spec fn output_lines(s: Seq<char>, r: FormatRules) -> Seq<Seq<char>> {
    if r.remove_trailing_spaces {
        trim_all(kept_lines(s, r))
    } else {
        kept_lines(s, r)
    }
}

/// What formatting makes of the text `s` under the rules `r`.
///
/// With every rule off the text is handed back as it is. Otherwise the text
/// is taken apart into lines, the blank lines at the end go (and those at the
/// start, where asked), lines are trimmed where asked, and what is left is
/// joined with single line feeds, with one more at the end where a final
/// newline is asked for. Nothing left means the empty text.
pub open spec fn transform(s: Seq<char>, r: FormatRules) -> Seq<char> {
    if r.is_none() {
        s
    } else if output_lines(s, r).len() == 0 {
        Seq::empty()
    } else if r.ensure_final_newline {
        join_lines(output_lines(s, r)) + seq!['\n']
    } else {
        join_lines(output_lines(s, r))
    }
}

/// Whether each range lies within a text of `n` characters.
spec fn ranges_within(n: int, rs: Seq<(usize, usize)>) -> bool {
    forall|i: int| 0 <= i < rs.len() ==> (#[trigger] rs[i]).0 <= rs[i].1 <= n
}

/// The pieces of `text` that the ranges `rs` mark.
spec fn range_lines(text: Seq<char>, rs: Seq<(usize, usize)>) -> Seq<Seq<char>> {
    Seq::new(rs.len(), |i: int| text.subrange(rs[i].0 as int, rs[i].1 as int))
}

/// The characters of `s`, one by one.
fn collect_chars(s: &str) -> (v: Vec<char>)
    ensures
        v@ == s@,
{
    let mut v: Vec<char> = Vec::new();
    for c in it: s.chars()
        invariant
            v@ == it.seq().take(it.index() as int),
    {
        v.push(c);
    }
    v
}

/// Splits `chars` into its lines, each given as the range it occupies.
fn split_lines(chars: &Vec<char>) -> (rs: Vec<(usize, usize)>)
    ensures
        ranges_within(chars.len() as int, rs@),
        range_lines(chars@, rs@) == lines(chars@),
{
    let n = chars.len();
    let mut rs: Vec<(usize, usize)> = Vec::new();
    let mut start: usize = 0;
    let mut i: usize = 0;
    proof {
        assert(chars@.subrange(0, n as int) =~= chars@);
        assert(range_lines(chars@, rs@) =~= Seq::<Seq<char>>::empty());
        assert(Seq::<Seq<char>>::empty() + lines(chars@) =~= lines(chars@));
    }
    while i < n
        invariant
            n == chars.len(),
            start <= i <= n,
            ranges_within(n as int, rs@),
            forall|j: int| start <= j < i ==> chars@[j] != '\n',
            lines(chars@) == range_lines(chars@, rs@) + lines(chars@.subrange(start as int, n as int)),
        decreases n - i,
    {
        if chars[i] == '\n' {
            let mut end = i;
            if end > start && chars[end - 1] == '\r' {
                end = end - 1;
            }
            proof {
                let sub = chars@.subrange(start as int, n as int);
                lemma_first_newline_at(sub, i - start);
                assert(sub.subrange(0, i - start) =~= chars@.subrange(start as int, i as int));
                assert(strip_cr(chars@.subrange(start as int, i as int)) =~= chars@.subrange(
                    start as int,
                    end as int,
                ));
                assert(sub.subrange(i - start + 1, sub.len() as int) =~= chars@.subrange(
                    i + 1,
                    n as int,
                ));
                assert(range_lines(chars@, rs@.push((start, end))) =~= range_lines(chars@, rs@)
                    + seq![chars@.subrange(start as int, end as int)]);
                assert(lines(chars@) =~= range_lines(chars@, rs@.push((start, end))) + lines(
                    chars@.subrange(i + 1, n as int),
                ));
            }
            rs.push((start, end));
            start = i + 1;
        }
        i = i + 1;
    }
    if start < n {
        proof {
            let sub = chars@.subrange(start as int, n as int);
            lemma_first_newline_at(sub, n - start);
            assert(range_lines(chars@, rs@.push((start, n))) =~= range_lines(chars@, rs@) + seq![
                sub,
            ]);
        }
        rs.push((start, n));
    } else {
        proof {
            assert(lines(chars@) =~= range_lines(chars@, rs@));
        }
    }
    rs
}

/// Where the line `chars[start..end]` ends once its trailing white space is
/// taken off.
fn trimmed_end(chars: &Vec<char>, start: usize, end: usize) -> (e: usize)
    requires
        start <= end <= chars.len(),
    ensures
        start <= e <= end,
        chars@.subrange(start as int, e as int) == trim_end(
            chars@.subrange(start as int, end as int),
        ),
{
    let mut e = end;
    while e > start && char_is_whitespace(chars[e - 1])
        invariant
            start <= e <= end <= chars.len(),
            trim_end(chars@.subrange(start as int, e as int)) == trim_end(
                chars@.subrange(start as int, end as int),
            ),
        decreases e,
    {
        proof {
            assert(chars@.subrange(start as int, e as int).drop_last() =~= chars@.subrange(
                start as int,
                e - 1,
            ));
        }
        e = e - 1;
    }
    e
}

/// The index of the first line that is not empty, or `ranges.len()` if every
/// line is.
fn skip_blank_front(chars: &Vec<char>, ranges: &Vec<(usize, usize)>) -> (first: usize)
    requires
        ranges_within(chars.len() as int, ranges@),
    ensures
        first <= ranges.len(),
        skip_leading_empty(range_lines(chars@, ranges@)) == range_lines(chars@, ranges@).subrange(
            first as int,
            ranges.len() as int,
        ),
{
    let ghost all = range_lines(chars@, ranges@);
    let count = ranges.len();
    let mut first: usize = 0;
    proof {
        assert(all.subrange(0, count as int) =~= all);
    }
    while first < count && ranges[first].0 == ranges[first].1
        invariant
            count == ranges.len(),
            first <= count,
            ranges_within(chars.len() as int, ranges@),
            all == range_lines(chars@, ranges@),
            skip_leading_empty(all) == skip_leading_empty(all.subrange(first as int, count as int)),
        decreases count - first,
    {
        proof {
            let sub = all.subrange(first as int, count as int);
            assert(sub[0] == all[first as int]);
            assert(sub[0].len() == 0);
            assert(sub.drop_first() =~= all.subrange(first + 1, count as int));
        }
        first = first + 1;
    }
    proof {
        let sub = all.subrange(first as int, count as int);
        if first < count {
            assert(sub[0] == all[first as int]);
            assert(sub[0].len() > 0);
        }
    }
    first
}

/// One past the index of the last line in `first..ranges.len()` that is not
/// empty, or `first` if every one is.
fn drop_blank_back(chars: &Vec<char>, ranges: &Vec<(usize, usize)>, first: usize) -> (last: usize)
    requires
        ranges_within(chars.len() as int, ranges@),
        first <= ranges.len(),
    ensures
        first <= last <= ranges.len(),
        drop_trailing_empty(
            range_lines(chars@, ranges@).subrange(first as int, ranges.len() as int),
        ) == range_lines(chars@, ranges@).subrange(first as int, last as int),
{
    let ghost all = range_lines(chars@, ranges@);
    let count = ranges.len();
    let mut last: usize = count;
    while last > first && ranges[last - 1].0 == ranges[last - 1].1
        invariant
            count == ranges.len(),
            first <= last <= count,
            ranges_within(chars.len() as int, ranges@),
            all == range_lines(chars@, ranges@),
            drop_trailing_empty(all.subrange(first as int, count as int)) == drop_trailing_empty(
                all.subrange(first as int, last as int),
            ),
        decreases last,
    {
        proof {
            let sub = all.subrange(first as int, last as int);
            assert(sub.last() == all[last - 1]);
            assert(sub.last().len() == 0);
            assert(sub.drop_last() =~= all.subrange(first as int, last - 1));
        }
        last = last - 1;
    }
    proof {
        let sub = all.subrange(first as int, last as int);
        if last > first {
            assert(sub.last() == all[last - 1]);
            assert(sub.last().len() > 0);
        }
    }
    last
}

/// Appends the characters `chars[start..end]` to `out`.
fn push_range(out: &mut String, chars: &Vec<char>, start: usize, end: usize)
    requires
        start <= end <= chars.len(),
    ensures
        final(out)@ == old(out)@ + chars@.subrange(start as int, end as int),
{
    let ghost base = out@;
    let mut p: usize = start;
    proof {
        assert(base + chars@.subrange(start as int, start as int) =~= base);
    }
    while p < end
        invariant
            start <= p <= end <= chars.len(),
            out@ == base + chars@.subrange(start as int, p as int),
        decreases end - p,
    {
        out.push(chars[p]);
        p = p + 1;
        proof {
            assert(chars@.subrange(start as int, p as int) =~= chars@.subrange(
                start as int,
                p - 1,
            ).push(chars@[p - 1]));
            assert(out@ =~= base + chars@.subrange(start as int, p as int));
        }
    }
}

/// Writes the lines `ranges[first..last]` of `chars`, trimmed if `trim`, with
/// a line feed between each two.
fn write_lines(
    chars: &Vec<char>,
    ranges: &Vec<(usize, usize)>,
    first: usize,
    last: usize,
    trim: bool,
) -> (result: String)
    requires
        ranges_within(chars.len() as int, ranges@),
        first <= last <= ranges.len(),
    ensures
        result@ == join_lines(
            if trim {
                trim_all(range_lines(chars@, ranges@).subrange(first as int, last as int))
            } else {
                range_lines(chars@, ranges@).subrange(first as int, last as int)
            },
        ),
{
    let ghost kept = range_lines(chars@, ranges@).subrange(first as int, last as int);
    let ghost out = if trim {
        trim_all(kept)
    } else {
        kept
    };
    let mut result = String::new();
    let mut k: usize = first;
    proof {
        assert(out.subrange(0, 0) =~= Seq::<Seq<char>>::empty());
    }
    while k < last
        invariant
            first <= k <= last <= ranges.len(),
            ranges_within(chars.len() as int, ranges@),
            kept == range_lines(chars@, ranges@).subrange(first as int, last as int),
            out == if trim {
                trim_all(kept)
            } else {
                kept
            },
            result@ == join_lines(out.subrange(0, k - first)),
        decreases last - k,
    {
        if k > first {
            result.push('\n');
        }
        let start = ranges[k].0;
        let end = if trim {
            trimmed_end(chars, start, ranges[k].1)
        } else {
            ranges[k].1
        };
        proof {
            assert(kept[k - first] == chars@.subrange(start as int, ranges@[k as int].1 as int));
            assert(chars@.subrange(start as int, end as int) == out[k - first]);
        }
        push_range(&mut result, chars, start, end);
        proof {
            let done = out.subrange(0, k - first);
            lemma_join_push(done, out[k - first]);
            assert(out.subrange(0, k - first + 1) =~= done.push(out[k - first]));
            if k > first {
                assert(result@ =~= join_lines(done) + seq!['\n'] + out[k - first]);
            } else {
                assert(result@ =~= out[k - first]);
            }
        }
        k = k + 1;
    }
    proof {
        assert(out.subrange(0, last - first) =~= out);
    }
    result
}

/// Formats `content` under `rules`.
///
/// With no rule enabled the content comes back unchanged. Otherwise blank
/// lines at the end are dropped (and at the start, if
/// `remove_leading_newlines`), each line is right-trimmed if
/// `remove_trailing_spaces`, the lines are joined by single line feeds, and
/// one line feed is appended if `ensure_final_newline`.
pub fn format_content(content: &str, rules: &FormatRules) -> (result: String)
    ensures
        result@ == transform(content@, *rules),
        rules.is_none() ==> result@ == content@,
{
    if !rules.remove_leading_newlines && !rules.remove_trailing_spaces
        && !rules.ensure_final_newline {
        return content.to_owned();
    }
    let chars = collect_chars(content);
    let ranges = split_lines(&chars);
    let first = if rules.remove_leading_newlines {
        skip_blank_front(&chars, &ranges)
    } else {
        0
    };
    proof {
        let all = lines(chars@);
        assert(all.subrange(0, ranges.len() as int) =~= all);
    }
    let last = drop_blank_back(&chars, &ranges, first);
    if first == last {
        return String::new();
    }
    let mut result = write_lines(&chars, &ranges, first, last, rules.remove_trailing_spaces);
    if rules.ensure_final_newline {
        result.push('\n');
    }
    result
}

/// Outcome of formatting one file.
#[derive(Clone, Copy, Debug, PartialEq, Eq, Structural)]
pub enum FormatResult {
    /// The content had to be changed.
    Changed,
    /// The content was already in its formatted form.
    Unchanged,
    /// The content is not text; it was left alone.
    Skipped,
}

/// Outcome of checking one file.
#[derive(Clone, Copy, Debug, PartialEq, Eq, Structural)]
pub enum CheckResult {
    /// The content is in its formatted form.
    Formatted,
    /// Formatting would change the content.
    NeedsFormatting,
    /// The content is not text; it was left alone.
    Skipped,
}

/// `std::str::from_utf8` of the standard library checks that the bytes are
/// valid UTF-8 and, if they are, hands them back as a string slice, which
/// then holds the characters that the bytes encode. On any other input it
/// fails; the failure is mapped to `None` here.
#[verifier::external_body]
fn text_of(content: &[u8]) -> (text: Option<&str>)
    ensures
        text is Some <==> valid_utf8(content@),
        text matches Some(t) ==> t@ == decode_utf8(content@),
{
    std::str::from_utf8(content).ok()
}

/// What formatting the file content `content` under `r` comes to: the
/// outcome, and with `Changed` the text to write in place of the content.
/// Content that is not valid UTF-8 is skipped.
pub open spec fn format_outcome(content: Seq<u8>, r: FormatRules) -> (
    FormatResult,
    Option<Seq<char>>,
) {
    if !valid_utf8(content) {
        (FormatResult::Skipped, None)
    } else if transform(decode_utf8(content), r) == decode_utf8(content) {
        (FormatResult::Unchanged, None)
    } else {
        (FormatResult::Changed, Some(transform(decode_utf8(content), r)))
    }
}

/// What checking the file content `content` under `r` comes to. Content that
/// is not valid UTF-8 is skipped.
pub open spec fn check_outcome(content: Seq<u8>, r: FormatRules) -> CheckResult {
    if !valid_utf8(content) {
        CheckResult::Skipped
    } else if transform(decode_utf8(content), r) == decode_utf8(content) {
        CheckResult::Formatted
    } else {
        CheckResult::NeedsFormatting
    }
}

/// Decodes `content` and formats it: the text as it was and as it should be,
/// or `None` if the content is not valid UTF-8.
fn read_and_format_with_rules(content: &[u8], rules: &FormatRules) -> (r: Option<(String, String)>)
    ensures
        r is Some <==> valid_utf8(content@),
        r matches Some(pair) ==> pair.0@ == decode_utf8(content@) && pair.1@ == transform(
            decode_utf8(content@),
            *rules,
        ),
{
    match text_of(content) {
        Some(text) => {
            let formatted = format_content(text, rules);
            Some((text.to_owned(), formatted))
        },
        None => None,
    }
}

/// Formats the content of one file under rules that were resolved before.
///
/// Returns `Changed` together with the new text when the content has to be
/// rewritten, `Unchanged` when it is already as it should be, and `Skipped`
/// when the content is binary (not valid UTF-8). Nothing is written here:
/// the caller replaces the file only on `Changed`.
pub fn format_file_with_rules(content: &[u8], rules: &FormatRules) -> (r: (
    FormatResult,
    Option<String>,
))
    ensures
        r.0 == format_outcome(content@, *rules).0,
        match r.1 {
            Some(text) => format_outcome(content@, *rules).1 == Some(text@),
            None => format_outcome(content@, *rules).1 is None,
        },
{
    match read_and_format_with_rules(content, rules) {
        Some((current, formatted)) => {
            if current == formatted {
                (FormatResult::Unchanged, None)
            } else {
                (FormatResult::Changed, Some(formatted))
            }
        },
        None => (FormatResult::Skipped, None),
    }
}

/// Checks the content of one file under rules that were resolved before.
///
/// Returns `Formatted` when formatting would leave the content as it is,
/// `NeedsFormatting` when it would not, and `Skipped` when the content is
/// binary (not valid UTF-8).
pub fn check_file_with_rules(content: &[u8], rules: &FormatRules) -> (r: CheckResult)
    ensures
        r == check_outcome(content@, *rules),
{
    match read_and_format_with_rules(content, rules) {
        Some((current, formatted)) => {
            if current == formatted {
                CheckResult::Formatted
            } else {
                CheckResult::NeedsFormatting
            }
        },
        None => CheckResult::Skipped,
    }
}

/// Formats the content of one file under the rules that the config files
/// above it give.
///
/// `path` is the canonical path of the file, or `None` where it has none;
/// `configs` are the hierarchy config files of the directories above it;
/// `content` are the bytes of the file. The outcome is that of
/// `format_file_with_rules` under the resolved rules.
pub fn format_file(path: Option<&str>, configs: &Vec<ConfigFile>, content: &[u8]) -> (r: (
    FormatResult,
    Option<String>,
))
    ensures
        r.0 == format_outcome(content@, rules_for_path(path, configs@)).0,
        match r.1 {
            Some(text) => format_outcome(content@, rules_for_path(path, configs@)).1 == Some(
                text@,
            ),
            None => format_outcome(content@, rules_for_path(path, configs@)).1 is None,
        },
{
    let rules = get_format_rules(path, configs);
    format_file_with_rules(content, &rules)
}

/// Checks the content of one file under the rules that the config files
/// above it give. The arguments are those of `format_file`; the outcome is
/// that of `check_file_with_rules` under the resolved rules.
pub fn check_file(path: Option<&str>, configs: &Vec<ConfigFile>, content: &[u8]) -> (r:
    CheckResult)
    ensures
        r == check_outcome(content@, rules_for_path(path, configs@)),
{
    let rules = get_format_rules(path, configs);
    check_file_with_rules(content, &rules)
}

/// With every rule off, formatting changes nothing: the text comes back
/// character for character, blank lines at its end included.
pub proof fn lemma_no_rules_no_change(s: Seq<char>, r: FormatRules)
    requires
        r.is_none(),
    ensures
        transform(s, r) == s,
{
}

/// Whether formatting `s` under `r` arrives at a text that is in its final
/// form: no rule is on, or the formatted text is empty, or
/// - its last line is not empty,
/// - its first line is not empty either, where `r` removes leading blank
///   lines, and
/// - none of its lines that a line feed follows ends in a carriage return.
///
/// Formatting can miss this in two ways. Lines are trimmed after the blank
/// lines are dropped, so a first or last line of white space alone is written
/// out as an empty line. And a carriage return that ends a line is written
/// out before the line feed, where the next reading takes it for part of the
/// line ending.
pub open spec fn reaches_final_form(s: Seq<char>, r: FormatRules) -> bool {
    let out = output_lines(s, r);
    ||| r.is_none()
    ||| transform(s, r).len() == 0
    ||| {
        &&& out.len() > 0
        &&& out.last().len() > 0
        &&& (r.remove_leading_newlines ==> out[0].len() > 0)
        &&& forall|i: int|
            0 <= i < out.len() && (i < out.len() - 1 || r.ensure_final_newline) ==> !ends_with_cr(
                #[trigger] out[i],
            )
    }
}

/// The lines that are written out hold no line feed; with trimming on, none
/// ends in white space, and trimming them again changes nothing.
proof fn lemma_output_lines(s: Seq<char>, r: FormatRules)
    ensures
        all_newline_free(output_lines(s, r)),
        r.remove_trailing_spaces ==> trim_all(output_lines(s, r)) == output_lines(s, r),
        !r.remove_trailing_spaces && kept_lines(s, r).len() > 0 ==> kept_lines(s, r).last().len()
            > 0,
        !r.remove_trailing_spaces && r.remove_leading_newlines && kept_lines(s, r).len() > 0
            ==> kept_lines(s, r)[0].len() > 0,
{
    let all = lines(s);
    lemma_lines_newline_free(s);
    let front = if r.remove_leading_newlines {
        skip_leading_empty(all)
    } else {
        all
    };
    lemma_skip_leading_empty(all);
    lemma_drop_trailing_empty(front);
    let kept = kept_lines(s, r);
    assert(all_newline_free(kept)) by {
        assert forall|i: int| 0 <= i < kept.len() implies newline_free(#[trigger] kept[i]) by {
            assert(kept[i] == front[i]);
            if r.remove_leading_newlines {
                assert(front[i] == all[i + all.len() - front.len()]);
            }
        }
    }
    let out = output_lines(s, r);
    if r.remove_trailing_spaces {
        assert forall|i: int| 0 <= i < out.len() implies newline_free(#[trigger] out[i]) by {
            lemma_trim_end(kept[i]);
        }
        assert forall|i: int| 0 <= i < out.len() implies trim_end(out[i]) == out[i] by {
            lemma_trim_end(kept[i]);
        }
        assert(trim_all(out) =~= out);
    } else {
        if kept.len() > 0 && r.remove_leading_newlines {
            assert(kept[0] == front[0]);
        }
    }
}

/// Formatting twice gives what formatting once gives, for every text that
/// formatting brings into its final form.
pub proof fn lemma_transform_idempotent(s: Seq<char>, r: FormatRules)
    requires
        reaches_final_form(s, r),
    ensures
        transform(transform(s, r), r) == transform(s, r),
{
    let y = transform(s, r);
    if r.is_none() {
    } else if y.len() == 0 {
        assert(lines(y) =~= Seq::<Seq<char>>::empty());
        assert(kept_lines(y, r) =~= Seq::<Seq<char>>::empty());
        assert(output_lines(y, r) =~= Seq::<Seq<char>>::empty());
    } else {
        let out = output_lines(s, r);
        lemma_output_lines(s, r);
        if r.ensure_final_newline {
            lemma_lines_of_terminated(out);
        } else {
            lemma_lines_of_joined(out);
        }
        assert(lines(y) =~= out);
        assert(skip_leading_empty(out) == out || !r.remove_leading_newlines);
        assert(drop_trailing_empty(out) == out);
        assert(kept_lines(y, r) == out);
        assert(output_lines(y, r) == out);
    }
}

/// What formatting writes out for a text is no longer than the lines of the
/// text, and shorter where the last line is empty or, with leading blank
/// lines removed, the first.
proof fn lemma_output_no_longer(z: Seq<char>, r: FormatRules)
    ensures
        written_len(output_lines(z, r)) <= written_len(lines(z)),
        lines(z).len() > 0 && lines(z).last().len() == 0 ==> written_len(output_lines(z, r))
            < written_len(lines(z)),
        r.remove_leading_newlines && lines(z).len() > 0 && lines(z)[0].len() == 0 ==> written_len(
            output_lines(z, r),
        ) < written_len(lines(z)),
{
    let all = lines(z);
    let front = if r.remove_leading_newlines {
        skip_leading_empty(all)
    } else {
        all
    };
    let kept = kept_lines(z, r);
    lemma_written_len_skip(all);
    lemma_skip_leading_empty(all);
    lemma_written_len_drop(front);
    if all.len() > 0 && all.last().len() == 0 && front.len() > 0 {
        assert(front.last() == all.last());
    }
    if r.remove_trailing_spaces {
        let out = trim_all(kept);
        assert forall|i: int| 0 <= i < out.len() implies (#[trigger] out[i]).len()
            <= kept[i].len() by {
            lemma_trim_end(kept[i]);
        }
        lemma_written_len_pointwise(out, kept);
    }
}

/// How long the formatted text is.
proof fn lemma_transform_len(z: Seq<char>, r: FormatRules)
    requires
        !r.is_none(),
    ensures
        transform(z, r).len() == if output_lines(z, r).len() == 0 {
            0
        } else if r.ensure_final_newline {
            written_len(output_lines(z, r))
        } else {
            (written_len(output_lines(z, r)) - 1) as nat
        },
{
    if output_lines(z, r).len() > 0 {
        lemma_join_len(output_lines(z, r));
    }
}

/// Formatting a second time shortens every formatted text that is not in its
/// final form. So the texts left out of `lemma_transform_idempotent` are the
/// ones for which formatting twice differs from formatting once, and no
/// others.
pub proof fn lemma_transform_shrinks_otherwise(s: Seq<char>, r: FormatRules)
    requires
        !reaches_final_form(s, r),
    ensures
        transform(transform(s, r), r).len() < transform(s, r).len(),
        transform(transform(s, r), r) != transform(s, r),
{
    let y = transform(s, r);
    let out = output_lines(s, r);
    let n = out.len() as int;
    assert(n > 0);
    lemma_output_lines(s, r);
    lemma_transform_len(s, r);
    lemma_transform_len(y, r);
    lemma_output_no_longer(y, r);
    let stripped = Seq::new(out.len(), |i: int| strip_cr(out[i]));
    if r.remove_trailing_spaces {
        assert forall|i: int| 0 <= i < n implies !ends_with_cr(#[trigger] out[i]) by {
            lemma_trim_end(kept_lines(s, r)[i]);
        }
        assert(stripped =~= out);
    }
    if r.ensure_final_newline {
        lemma_lines_of_terminated(out);
        assert(lines(y) == stripped);
        assert forall|i: int| 0 <= i < n implies (#[trigger] stripped[i]).len() <= out[i].len() by {}
        lemma_written_len_pointwise(stripped, out);
        if !r.remove_trailing_spaces {
            let i = choose|i: int| 0 <= i < n && ends_with_cr(#[trigger] out[i]);
            assert(stripped[i].len() < out[i].len());
        } else if out.last().len() == 0 {
            assert(lines(y).last() == out.last());
        } else {
            assert(lines(y)[0] == out[0]);
        }
    } else if out.last().len() > 0 {
        lemma_lines_of_joined(out);
        let mixed = Seq::new(
            out.len(),
            |i: int|
                if i < out.len() - 1 {
                    strip_cr(out[i])
                } else {
                    out[i]
                },
        );
        assert(lines(y) == mixed);
        assert forall|i: int| 0 <= i < n implies (#[trigger] mixed[i]).len() <= out[i].len() by {}
        lemma_written_len_pointwise(mixed, out);
        if !r.remove_trailing_spaces {
            let i = choose|i: int| 0 <= i < n - 1 && ends_with_cr(#[trigger] out[i]);
            assert(mixed[i].len() < out[i].len());
        } else {
            assert(n > 1);
            assert(lines(y)[0] == out[0]);
        }
    } else {
        let init = out.drop_last();
        assert(n > 1);
        assert(out =~= init.push(out.last()));
        lemma_join_push(init, out.last());
        assert(y =~= join_lines(init) + seq!['\n']);
        assert(all_newline_free(init)) by {
            assert forall|i: int| 0 <= i < init.len() implies newline_free(#[trigger] init[i]) by {
                assert(init[i] == out[i]);
            }
        }
        lemma_lines_of_terminated(init);
        let short = Seq::new(init.len(), |i: int| strip_cr(init[i]));
        assert(lines(y) == short);
        assert forall|i: int| 0 <= i < init.len() implies (#[trigger] short[i]).len()
            <= init[i].len() by {}
        lemma_written_len_pointwise(short, init);
    }
}

/// Formatting twice gives what formatting once gives exactly for the texts
/// that formatting brings into their final form.
pub proof fn lemma_idempotent_iff_final_form(s: Seq<char>, r: FormatRules)
    ensures
        transform(transform(s, r), r) == transform(s, r) <==> reaches_final_form(s, r),
{
    if reaches_final_form(s, r) {
        lemma_transform_idempotent(s, r);
    } else {
        lemma_transform_shrinks_otherwise(s, r);
    }
}

/// A text that formatting has brought into its final form is clean: written
/// out as bytes and taken up again, formatting it under the same rules
/// reports `Unchanged` and writes nothing, and checking it reports
/// `Formatted`.
pub proof fn lemma_formatted_content_is_clean(s: Seq<char>, r: FormatRules)
    requires
        reaches_final_form(s, r),
    ensures
        format_outcome(encode_utf8(transform(s, r)), r) == (FormatResult::Unchanged, None::<Seq<char>>),
        check_outcome(encode_utf8(transform(s, r)), r) == CheckResult::Formatted,
{
    broadcast use vstd::utf8::encode_utf8_valid_utf8, vstd::utf8::encode_utf8_decode_utf8;

    lemma_transform_idempotent(s, r);
}

} // verus!
