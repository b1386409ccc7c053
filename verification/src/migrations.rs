//! Splitting SQL migrations into the statements to run.
//!
//! The database takes one statement per request. A statement ends with a line
//! that ends with a semicolon; lines that begin with `--` are comments.

use crate::text::{
    chars_of, drop_space, line_bounds, lines, pieces, range_starts_with, skip_space, starts_with,
    text_of, texts, trim_end, trim_range, trim_start, trimmed,
};
use vstd::prelude::*;
use vstd::string::StringExecFns;

verus! {

/// A line that is a comment.
pub open spec fn is_comment(line: Seq<char>) -> bool {
    starts_with(trim_start(line), "--"@)
}

/// A line that ends a statement.
pub open spec fn ends_statement(line: Seq<char>) -> bool {
    trim_end(line).len() > 0 && trim_end(line).last() == ';'
}

/// The statements completed by the lines, and the text of the one that is still
/// open.
pub open spec fn gathered(ls: Seq<Seq<char>>) -> (Seq<Seq<char>>, Seq<char>)
    decreases ls.len(),
{
    if ls.len() == 0 {
        (Seq::empty(), Seq::empty())
    } else {
        let (done, open_text) = gathered(ls.drop_last());
        let line = ls.last();
        let longer = (open_text + line).push('\n');
        if is_comment(line) {
            (done, open_text)
        } else if ends_statement(line) {
            (done.push(longer), Seq::empty())
        } else {
            (done, longer)
        }
    }
}

/// The statements of `sql`; text after the last is one too unless it is blank.
pub open spec fn statements(sql: Seq<char>) -> Seq<Seq<char>> {
    let (done, open_text) = gathered(lines(sql));
    if trimmed(open_text).len() == 0 {
        done
    } else {
        done.push(open_text)
    }
}

fn comment_line(cs: &Vec<char>, from: usize, to: usize) -> (b: bool)
    requires
        from <= to <= cs.len(),
    ensures
        b == is_comment(cs@.subrange(from as int, to as int)),
{
    let a = skip_space(cs, from, to);
    let dashes = chars_of("--");
    range_starts_with(cs, a, to, &dashes)
}

fn statement_end(cs: &Vec<char>, from: usize, to: usize) -> (b: bool)
    requires
        from <= to <= cs.len(),
    ensures
        b == ends_statement(cs@.subrange(from as int, to as int)),
{
    let b = drop_space(cs, from, to);
    proof {
        if from < b {
            assert(cs@.subrange(from as int, b as int).last() == cs@[b - 1]);
        }
    }
    from < b && cs[b - 1] == ';'
}

fn is_blank(text: &str) -> (b: bool)
    ensures
        b == (trimmed(text@).len() == 0),
{
    let cs = chars_of(text);
    let (from, to) = trim_range(&cs, 0, cs.len());
    assert(cs@.subrange(0, cs.len() as int) =~= cs@);
    from == to
}

/// Splits `sql` into statements. Comment lines are left out.
pub fn split_statements(sql: &str) -> (out: Vec<String>)
    ensures
        texts(out@) == statements(sql@),
{
    let cs = chars_of(sql);
    let bounds = line_bounds(&cs);
    let ghost ls = lines(sql@);
    let mut out: Vec<String> = Vec::new();
    let mut buf = String::new();
    let mut i: usize = 0;
    proof {
        assert(pieces(cs@, bounds@).len() == bounds@.len());
        assert(ls.take(0) =~= Seq::<Seq<char>>::empty());
        assert(texts(out@) =~= Seq::<Seq<char>>::empty());
    }
    while i < bounds.len()
        invariant
            0 <= i <= bounds.len(),
            ls == pieces(cs@, bounds@),
            forall|k: int|
                0 <= k < bounds.len() ==> (#[trigger] bounds[k]).0 <= bounds[k].1 <= cs.len(),
            texts(out@) == gathered(ls.take(i as int)).0,
            buf@ == gathered(ls.take(i as int)).1,
        decreases bounds.len() - i,
    {
        let (from, to) = bounds[i];
        proof {
            assert(ls.take(i + 1).drop_last() =~= ls.take(i as int));
            assert(ls.take(i + 1).last() == cs@.subrange(from as int, to as int));
        }
        if !comment_line(&cs, from, to) {
            let line = text_of(&cs, from, to);
            buf.append(line.as_str());
            buf.push('\n');
            if statement_end(&cs, from, to) {
                let ghost before = out@;
                let ghost text = buf@;
                out.push(buf);
                buf = String::new();
                proof {
                    assert(texts(out@) =~= texts(before).push(text));
                }
            }
        }
        i = i + 1;
    }
    proof {
        assert(ls.take(ls.len() as int) =~= ls);
    }
    if !is_blank(buf.as_str()) {
        let ghost before = out@;
        let ghost text = buf@;
        out.push(buf);
        proof {
            assert(texts(out@) =~= texts(before).push(text));
        }
    }
    out
}

/// What is sent of a statement: it without surrounding white space, unless that
/// is empty or a comment.
pub open spec fn sent(statement: Seq<char>) -> Option<Seq<char>> {
    let t = trimmed(statement);
    if t.len() == 0 || starts_with(t, "--"@) {
        None
    } else {
        Some(t)
    }
}

/// What to send for a statement, if anything.
pub fn statement_to_send(statement: &str) -> (out: Option<String>)
    ensures
        match out {
            Some(s) => sent(statement@) == Some(s@),
            None => sent(statement@) is None,
        },
{
    let cs = chars_of(statement);
    let (from, to) = trim_range(&cs, 0, cs.len());
    assert(cs@.subrange(0, cs.len() as int) =~= cs@);
    let dashes = chars_of("--");
    if from == to || range_starts_with(&cs, from, to, &dashes) {
        None
    } else {
        Some(text_of(&cs, from, to))
    }
}

/// How much of a statement an error message shows.
pub const PREVIEW_CHARS: usize = 80;

/// The beginning of a statement, for an error message.
pub fn preview(s: &str) -> (out: String)
    ensures
        out@ == s@.take(
            if s@.len() < PREVIEW_CHARS {
                s@.len() as int
            } else {
                PREVIEW_CHARS as int
            },
        ),
{
    let cs = chars_of(s);
    let n: usize = if cs.len() < PREVIEW_CHARS {
        cs.len()
    } else {
        PREVIEW_CHARS
    };
    assert(cs@.subrange(0, n as int) =~= cs@.take(n as int));
    text_of(&cs, 0, n)
}

/// The lines that are no comments, each with its line feed, one after another.
pub open spec fn kept_text(ls: Seq<Seq<char>>) -> Seq<char>
    decreases ls.len(),
{
    if ls.len() == 0 {
        Seq::empty()
    } else if is_comment(ls.last()) {
        kept_text(ls.drop_last())
    } else {
        (kept_text(ls.drop_last()) + ls.last()).push('\n')
    }
}

/// The statements one after another.
pub open spec fn run_together(parts: Seq<Seq<char>>) -> Seq<char>
    decreases parts.len(),
{
    if parts.len() == 0 {
        Seq::empty()
    } else {
        run_together(parts.drop_last()) + parts.last()
    }
}

/// Splitting moves no text and loses none: the statements, and what is left
/// open, are the lines that are no comments, in order.
pub proof fn splitting_loses_no_text(ls: Seq<Seq<char>>)
    ensures
        run_together(gathered(ls).0) + gathered(ls).1 == kept_text(ls),
    decreases ls.len(),
{
    if ls.len() > 0 {
        splitting_loses_no_text(ls.drop_last());
        let (done, open_text) = gathered(ls.drop_last());
        let line = ls.last();
        let longer = (open_text + line).push('\n');
        assert(run_together(done) + longer =~= ((run_together(done) + open_text) + line).push(
            '\n',
        ));
        if !is_comment(line) && ends_statement(line) {
            assert(done.push(longer).drop_last() =~= done);
            assert(run_together(done.push(longer)) + Seq::<char>::empty() =~= run_together(done)
                + longer);
        }
    } else {
        assert(Seq::<char>::empty() + Seq::<char>::empty() =~= Seq::<char>::empty());
    }
}

} // verus!
