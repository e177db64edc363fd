//! The line model of a text: how a sequence of characters splits into lines,
//! what counts as white space, and how lines are joined again.
//!
//! Everything here is mathematics over `Seq<char>`; the executable code in
//! the formatting module is proved against these definitions.

use vstd::prelude::*;

verus! {

/// Whether `c` is Unicode white space (a code point with the `White_Space`
/// property).
pub open spec fn is_whitespace(c: char) -> bool {
    let u = c as u32;
    ||| (0x09 <= u && u <= 0x0D)
    ||| u == 0x20
    ||| u == 0x85
    ||| u == 0xA0
    ||| u == 0x1680
    ||| (0x2000 <= u && u <= 0x200A)
    ||| u == 0x2028
    ||| u == 0x2029
    ||| u == 0x202F
    ||| u == 0x205F
    ||| u == 0x3000
}

/// Executable test for white space.
pub fn char_is_whitespace(c: char) -> (b: bool)
    ensures
        b == is_whitespace(c),
{
    let u: u32 = c as u32;
    (0x09 <= u && u <= 0x0D) || u == 0x20 || u == 0x85 || u == 0xA0 || u == 0x1680 || (0x2000 <= u
        && u <= 0x200A) || u == 0x2028 || u == 0x2029 || u == 0x202F || u == 0x205F || u == 0x3000
}

/// Index of the first line feed in `s`, or `s.len()` if `s` holds none.
pub open spec fn first_newline(s: Seq<char>) -> nat
    decreases s.len(),
{
    if s.len() == 0 || s[0] == '\n' {
        0
    } else {
        1 + first_newline(s.drop_first())
    }
}

/// Whether `s` holds no line feed.
pub open spec fn newline_free(s: Seq<char>) -> bool {
    forall|i: int| 0 <= i < s.len() ==> s[i] != '\n'
}

/// Whether `s` ends in a carriage return.
pub open spec fn ends_with_cr(s: Seq<char>) -> bool {
    s.len() > 0 && s.last() == '\r'
}

/// `s` without one trailing carriage return, if it has one.
pub open spec fn strip_cr(s: Seq<char>) -> Seq<char> {
    if ends_with_cr(s) {
        s.drop_last()
    } else {
        s
    }
}

/// The lines of a text. A line ends at a line feed; a carriage return right
/// before that line feed belongs to the line ending, not to the line. Text
/// after the last line feed is a line of its own, kept as it is, unless it is
/// empty.
pub open spec fn lines(s: Seq<char>) -> Seq<Seq<char>>
    decreases s.len(),
{
    if s.len() == 0 {
        Seq::empty()
    } else {
        let i = first_newline(s) as int;
        if i >= s.len() {
            seq![s]
        } else {
            seq![strip_cr(s.subrange(0, i))] + lines(s.subrange(i + 1, s.len() as int))
        }
    }
}

/// `ls` without the empty lines at its start.
pub open spec fn skip_leading_empty(ls: Seq<Seq<char>>) -> Seq<Seq<char>>
    decreases ls.len(),
{
    if ls.len() > 0 && ls[0].len() == 0 {
        skip_leading_empty(ls.drop_first())
    } else {
        ls
    }
}

/// `ls` without the empty lines at its end.
pub open spec fn drop_trailing_empty(ls: Seq<Seq<char>>) -> Seq<Seq<char>>
    decreases ls.len(),
{
    if ls.len() > 0 && ls.last().len() == 0 {
        drop_trailing_empty(ls.drop_last())
    } else {
        ls
    }
}

/// `l` without the white space at its end.
pub open spec fn trim_end(l: Seq<char>) -> Seq<char>
    decreases l.len(),
{
    if l.len() > 0 && is_whitespace(l.last()) {
        trim_end(l.drop_last())
    } else {
        l
    }
}

/// Every line of `ls` with the white space at its end removed.
pub open spec fn trim_all(ls: Seq<Seq<char>>) -> Seq<Seq<char>> {
    Seq::new(ls.len(), |i: int| trim_end(ls[i]))
}

/// The lines of `ls` with one line feed between each two neighbours.
pub open spec fn join_lines(ls: Seq<Seq<char>>) -> Seq<char>
    decreases ls.len(),
{
    if ls.len() == 0 {
        Seq::empty()
    } else if ls.len() == 1 {
        ls[0]
    } else {
        ls[0] + seq!['\n'] + join_lines(ls.drop_first())
    }
}

/// Whether every line of `ls` is free of line feeds.
pub open spec fn all_newline_free(ls: Seq<Seq<char>>) -> bool {
    forall|i: int| 0 <= i < ls.len() ==> newline_free(#[trigger] ls[i])
}

/// `first_newline` stays within the text, points at a line feed when it
/// points into the text, and nothing before it is a line feed.
pub proof fn lemma_first_newline(s: Seq<char>)
    ensures
        0 <= first_newline(s) <= s.len(),
        first_newline(s) < s.len() ==> s[first_newline(s) as int] == '\n',
        forall|j: int| 0 <= j < first_newline(s) ==> s[j] != '\n',
    decreases s.len(),
{
    if s.len() == 0 || s[0] == '\n' {
    } else {
        let t = s.drop_first();
        lemma_first_newline(t);
        assert forall|j: int| 0 <= j < first_newline(s) implies s[j] != '\n' by {
            if j > 0 {
                assert(s[j] == t[j - 1]);
            }
        }
    }
}

/// The first line feed is where a line feed stands with none before it.
pub proof fn lemma_first_newline_at(s: Seq<char>, i: int)
    requires
        0 <= i <= s.len(),
        forall|j: int| 0 <= j < i ==> s[j] != '\n',
        i < s.len() ==> s[i] == '\n',
    ensures
        first_newline(s) == i,
{
    lemma_first_newline(s);
}

/// No line of a text holds a line feed.
pub proof fn lemma_lines_newline_free(s: Seq<char>)
    ensures
        all_newline_free(lines(s)),
    decreases s.len(),
{
    if s.len() == 0 {
    } else {
        lemma_first_newline(s);
        let i = first_newline(s) as int;
        if i >= s.len() {
            assert(newline_free(s));
        } else {
            let rest = s.subrange(i + 1, s.len() as int);
            lemma_lines_newline_free(rest);
            let head = strip_cr(s.subrange(0, i));
            assert(newline_free(head));
            assert forall|k: int| 0 <= k < lines(s).len() implies newline_free(
                #[trigger] lines(s)[k],
            ) by {
                if k > 0 {
                    assert(lines(s)[k] == lines(rest)[k - 1]);
                }
            }
        }
    }
}

/// Trimming is a prefix of the line, leaves no white space at the end, and
/// changes nothing when done twice.
pub proof fn lemma_trim_end(l: Seq<char>)
    ensures
        trim_end(l).len() <= l.len(),
        trim_end(l) == l.subrange(0, trim_end(l).len() as int),
        trim_end(l).len() > 0 ==> !is_whitespace(trim_end(l).last()),
        trim_end(trim_end(l)) == trim_end(l),
        newline_free(l) ==> newline_free(trim_end(l)),
        !ends_with_cr(trim_end(l)),
    decreases l.len(),
{
    if l.len() > 0 && is_whitespace(l.last()) {
        let m = l.drop_last();
        lemma_trim_end(m);
        assert(trim_end(l) =~= l.subrange(0, trim_end(l).len() as int));
    } else {
        assert(l =~= l.subrange(0, l.len() as int));
    }
}

/// Joining after one more line: the earlier text, a line feed, the new line.
pub proof fn lemma_join_push(ls: Seq<Seq<char>>, l: Seq<char>)
    ensures
        join_lines(ls.push(l)) == if ls.len() == 0 {
            l
        } else {
            join_lines(ls) + seq!['\n'] + l
        },
    decreases ls.len(),
{
    if ls.len() == 0 {
        assert(ls.push(l).len() == 1);
    } else {
        let tail = ls.drop_first();
        assert(ls.push(l).drop_first() =~= tail.push(l));
        lemma_join_push(tail, l);
        if tail.len() == 0 {
            assert(join_lines(ls) == ls[0]);
        } else {
            assert(join_lines(ls.push(l)) =~= join_lines(ls) + seq!['\n'] + l);
        }
    }
}

/// What is left after the leading empty lines are gone is the tail of the
/// lines, and does not start with an empty line.
pub proof fn lemma_skip_leading_empty(ls: Seq<Seq<char>>)
    ensures
        skip_leading_empty(ls).len() <= ls.len(),
        skip_leading_empty(ls) == ls.subrange(
            ls.len() - skip_leading_empty(ls).len(),
            ls.len() as int,
        ),
        skip_leading_empty(ls).len() > 0 ==> skip_leading_empty(ls)[0].len() > 0,
    decreases ls.len(),
{
    if ls.len() > 0 && ls[0].len() == 0 {
        let t = ls.drop_first();
        lemma_skip_leading_empty(t);
        let k = t.len() - skip_leading_empty(t).len();
        assert(t.subrange(k, t.len() as int) =~= ls.subrange(k + 1, ls.len() as int));
    } else {
        assert(ls =~= ls.subrange(0, ls.len() as int));
    }
}

/// What is left after the trailing empty lines are gone is the head of the
/// lines, and does not end with an empty line.
pub proof fn lemma_drop_trailing_empty(ls: Seq<Seq<char>>)
    ensures
        drop_trailing_empty(ls).len() <= ls.len(),
        drop_trailing_empty(ls) == ls.subrange(0, drop_trailing_empty(ls).len() as int),
        drop_trailing_empty(ls).len() > 0 ==> drop_trailing_empty(ls).last().len() > 0,
    decreases ls.len(),
{
    if ls.len() > 0 && ls.last().len() == 0 {
        let t = ls.drop_last();
        lemma_drop_trailing_empty(t);
        let k = drop_trailing_empty(t).len() as int;
        assert(t.subrange(0, k) =~= ls.subrange(0, k));
    } else {
        assert(ls =~= ls.subrange(0, ls.len() as int));
    }
}

/// The lines of a text that was joined from line-feed-free lines, with a
/// line feed after the last one: the same lines, each without one trailing
/// carriage return.
pub proof fn lemma_lines_of_terminated(ms: Seq<Seq<char>>)
    requires
        ms.len() > 0,
        all_newline_free(ms),
    ensures
        lines(join_lines(ms) + seq!['\n']) == Seq::new(ms.len(), |i: int| strip_cr(ms[i])),
    decreases ms.len(),
{
    let t = join_lines(ms) + seq!['\n'];
    let h = ms[0];
    assert(newline_free(h));
    if ms.len() == 1 {
        lemma_first_newline_at(t, h.len() as int);
        assert(t.subrange(0, h.len() as int) =~= h);
        let e = t.subrange(h.len() as int + 1, t.len() as int);
        assert(e.len() == 0);
        assert(lines(e) =~= Seq::<Seq<char>>::empty());
        assert(lines(t) =~= Seq::new(ms.len(), |i: int| strip_cr(ms[i])));
    } else {
        let tail = ms.drop_first();
        let rest = join_lines(tail) + seq!['\n'];
        assert(t =~= h + seq!['\n'] + rest);
        lemma_first_newline_at(t, h.len() as int);
        assert(t.subrange(0, h.len() as int) =~= h);
        assert(t.subrange(h.len() as int + 1, t.len() as int) =~= rest);
        assert(all_newline_free(tail)) by {
            assert forall|i: int| 0 <= i < tail.len() implies newline_free(#[trigger] tail[i]) by {
                assert(tail[i] == ms[i + 1]);
            }
        }
        lemma_lines_of_terminated(tail);
        assert(lines(t) =~= Seq::new(ms.len(), |i: int| strip_cr(ms[i])));
    }
}

/// The lines of a text that was joined from line-feed-free lines, the last of
/// them not empty: the same lines, each but the last without one trailing
/// carriage return.
pub proof fn lemma_lines_of_joined(ms: Seq<Seq<char>>)
    requires
        ms.len() > 0,
        all_newline_free(ms),
        ms.last().len() > 0,
    ensures
        lines(join_lines(ms)) == Seq::new(
            ms.len(),
            |i: int|
                if i < ms.len() - 1 {
                    strip_cr(ms[i])
                } else {
                    ms[i]
                },
        ),
    decreases ms.len(),
{
    let t = join_lines(ms);
    let h = ms[0];
    assert(newline_free(h));
    let expected = Seq::new(
        ms.len(),
        |i: int|
            if i < ms.len() - 1 {
                strip_cr(ms[i])
            } else {
                ms[i]
            },
    );
    if ms.len() == 1 {
        lemma_first_newline_at(t, t.len() as int);
        assert(lines(t) =~= expected);
    } else {
        let tail = ms.drop_first();
        let rest = join_lines(tail);
        assert(t =~= h + seq!['\n'] + rest);
        lemma_first_newline_at(t, h.len() as int);
        assert(t.subrange(0, h.len() as int) =~= h);
        assert(t.subrange(h.len() as int + 1, t.len() as int) =~= rest);
        assert(all_newline_free(tail)) by {
            assert forall|i: int| 0 <= i < tail.len() implies newline_free(#[trigger] tail[i]) by {
                assert(tail[i] == ms[i + 1]);
            }
        }
        assert(tail.last() == ms.last());
        lemma_lines_of_joined(tail);
        assert(lines(t) =~= expected);
    }
}

/// The length of the lines once written out, each with a line feed after
/// it.
pub open spec fn written_len(ls: Seq<Seq<char>>) -> nat
    decreases ls.len(),
{
    if ls.len() == 0 {
        0
    } else {
        written_len(ls.drop_last()) + ls.last().len() + 1
    }
}

/// The written length, counted from the first line.
pub proof fn lemma_written_len_front(ls: Seq<Seq<char>>)
    requires
        ls.len() > 0,
    ensures
        written_len(ls) == ls[0].len() + 1 + written_len(ls.drop_first()),
    decreases ls.len(),
{
    if ls.len() == 1 {
        assert(ls.drop_last() =~= ls.drop_first());
        assert(written_len(ls.drop_last()) == 0);
    } else {
        let init = ls.drop_last();
        lemma_written_len_front(init);
        assert(init.drop_first() =~= ls.drop_first().drop_last());
        assert(ls.drop_first().last() == ls.last());
    }
}

/// Joined lines are one shorter than written lines: the last line has no line
/// feed after it.
pub proof fn lemma_join_len(ls: Seq<Seq<char>>)
    requires
        ls.len() > 0,
    ensures
        join_lines(ls).len() + 1 == written_len(ls),
    decreases ls.len(),
{
    lemma_written_len_front(ls);
    if ls.len() == 1 {
        assert(written_len(ls.drop_first()) == 0);
    } else {
        lemma_join_len(ls.drop_first());
    }
}

/// Lines that are each no longer than their counterparts are no longer when
/// written, and shorter where one of them is shorter.
pub proof fn lemma_written_len_pointwise(a: Seq<Seq<char>>, b: Seq<Seq<char>>)
    requires
        a.len() == b.len(),
        forall|i: int| 0 <= i < a.len() ==> (#[trigger] a[i]).len() <= b[i].len(),
    ensures
        written_len(a) <= written_len(b),
        (exists|j: int| 0 <= j < a.len() && (#[trigger] a[j]).len() < b[j].len()) ==> written_len(a)
            < written_len(b),
    decreases a.len(),
{
    if a.len() > 0 {
        let a0 = a.drop_last();
        let b0 = b.drop_last();
        assert forall|i: int| 0 <= i < a0.len() implies (#[trigger] a0[i]).len() <= b0[i].len() by {
            assert(a0[i] == a[i] && b0[i] == b[i]);
        }
        lemma_written_len_pointwise(a0, b0);
        assert(a.last() == a[a.len() - 1]);
        if exists|j: int| 0 <= j < a.len() && (#[trigger] a[j]).len() < b[j].len() {
            let j = choose|j: int| 0 <= j < a.len() && (#[trigger] a[j]).len() < b[j].len();
            if j < a.len() - 1 {
                assert(a0[j] == a[j] && b0[j] == b[j]);
                assert(a0[j].len() < b0[j].len());
            }
        }
    }
}

/// Dropping the leading empty lines does not lengthen what is written, and
/// shortens it where the first line is empty.
pub proof fn lemma_written_len_skip(ls: Seq<Seq<char>>)
    ensures
        written_len(skip_leading_empty(ls)) <= written_len(ls),
        ls.len() > 0 && ls[0].len() == 0 ==> written_len(skip_leading_empty(ls)) < written_len(ls),
    decreases ls.len(),
{
    if ls.len() > 0 && ls[0].len() == 0 {
        lemma_written_len_front(ls);
        lemma_written_len_skip(ls.drop_first());
    }
}

/// Dropping the trailing empty lines does not lengthen what is written, and
/// shortens it where the last line is empty.
pub proof fn lemma_written_len_drop(ls: Seq<Seq<char>>)
    ensures
        written_len(drop_trailing_empty(ls)) <= written_len(ls),
        ls.len() > 0 && ls.last().len() == 0 ==> written_len(drop_trailing_empty(ls))
            < written_len(ls),
    decreases ls.len(),
{
    if ls.len() > 0 && ls.last().len() == 0 {
        lemma_written_len_drop(ls.drop_last());
    }
}

} // verus!
