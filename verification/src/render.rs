//! The protocol renderer: the exact line formats the legacy clients read.
//!
//! `subject.txt` lists threads; a variant for one client family adds the
//! opener's author id; a thread's `.dat` lists its responses, the title on
//! the first line only; `SETTING.TXT` names the board.
use vstd::prelude::*;

use crate::dtos::{Board, Res, Thread};
use crate::strutil::{append_i64, append_str, chars_to_string, dec_rep_signed};

verus! {

/// The name rendered for a response whose poster gave none.
pub open spec fn anonymous_name() -> Seq<char> {
    seq![
        '\u{30b9}',
        '\u{30b1}',
        '\u{30b9}',
        '\u{30b1}',
        '\u{306e}',
        '\u{540d}',
        '\u{7121}',
        '\u{3057}',
    ]
}

/// One `subject.txt` line: `{key}.dat<>{title} ({count})` and a newline.
pub open spec fn subject_line(t: Thread) -> Seq<char> {
    dec_rep_signed(t.thread_key as int) + seq!['.', 'd', 'a', 't', '<', '>'] + t.title@ + seq![
        ' ',
        '(',
    ] + dec_rep_signed(t.response_count as int) + seq![')', '\n']
}

/// The whole `subject.txt` for an ordered thread sequence.
pub open spec fn subject_txt_of(ts: Seq<Thread>) -> Seq<char>
    decreases ts.len(),
{
    if ts.len() == 0 {
        seq![]
    } else {
        subject_line(ts[0]) + subject_txt_of(ts.drop_first())
    }
}

/// One line of the variant listing: the opener's author id between the
/// title and the count.
pub open spec fn mate_subject_line(t: Thread) -> Seq<char> {
    dec_rep_signed(t.thread_key as int) + seq!['.', 'd', 'a', 't', '<', '>'] + t.title@ + seq![
        ' ',
        '[',
    ] + t.author_id@ + seq!['\u{2605}', ']', ' ', '('] + dec_rep_signed(t.response_count as int)
        + seq![')', '\n']
}

/// The whole variant listing.
pub open spec fn mate_subject_txt_of(ts: Seq<Thread>) -> Seq<char>
    decreases ts.len(),
{
    if ts.len() == 0 {
        seq![]
    } else {
        mate_subject_line(ts[0]) + mate_subject_txt_of(ts.drop_first())
    }
}

/// One `.dat` line: name — the anonymous fallback when empty — then mail
/// position, stamp, author id, body, and the given title part.
pub open spec fn dat_line(r: Res, title_part: Seq<char>) -> Seq<char> {
    (if r.name@.len() == 0 {
        anonymous_name()
    } else {
        r.name@
    }) + seq!['<', '>', '<', '>'] + r.date_text@ + seq![' ', 'I', 'D', ':'] + r.author_id@ + seq![
        '<',
        '>',
        ' ',
    ] + r.body@ + seq!['<', '>'] + title_part + seq!['\n']
}

/// The `.dat` lines for a response sequence: the thread's title stands on
/// the first line alone.
pub open spec fn dat_lines_of(title: Seq<char>, rs: Seq<Res>, first: bool) -> Seq<char>
    decreases rs.len(),
{
    if rs.len() == 0 {
        seq![]
    } else {
        dat_line(
            rs[0],
            if first {
                title
            } else {
                seq![]
            },
        ) + dat_lines_of(title, rs.drop_first(), false)
    }
}

/// The whole `.dat` of a thread.
pub open spec fn dat_of(t: Thread, rs: Seq<Res>) -> Seq<char> {
    dat_lines_of(t.title@, rs, true)
}

/// The `SETTING.TXT` of a board: its title twice and the anonymous name,
/// one `key=value` per line with no trailing newline.
pub open spec fn setting_txt_of(b: Board) -> Seq<char> {
    "BBS_TITLE="@ + b.name@ + seq!['\n'] + "BBS_TITLE_ORIG="@ + b.name@ + seq!['\n']
        + "BBS_NONAME_NAME="@ + anonymous_name()
}

fn push_subject_line(out: &mut Vec<char>, t: &Thread)
    ensures
        final(out)@ == old(out)@ + subject_line(*t),
{
    let ghost base = out@;
    append_i64(out, t.thread_key);
    out.push('.');
    out.push('d');
    out.push('a');
    out.push('t');
    out.push('<');
    out.push('>');
    append_str(out, t.title.as_str());
    out.push(' ');
    out.push('(');
    append_i64(out, t.response_count as i64);
    out.push(')');
    out.push('\n');
    proof {
        assert(out@ =~= base + subject_line(*t));
    }
}

/// Render `subject.txt` for threads already ordered by recency.
pub fn gen_subject_txt(threads: &[Thread]) -> (r: String)
    ensures
        r@ == subject_txt_of(threads@),
{
    let mut out: Vec<char> = Vec::new();
    let mut i: usize = 0;
    proof {
        assert(threads@.skip(0) =~= threads@);
    }
    while i < threads.len()
        invariant
            i <= threads@.len(),
            subject_txt_of(threads@) == out@ + subject_txt_of(threads@.skip(i as int)),
        decreases threads@.len() - i,
    {
        proof {
            assert(threads@.skip(i as int)[0] == threads@[i as int]);
            assert(threads@.skip(i as int).drop_first() =~= threads@.skip(i + 1));
        }
        push_subject_line(&mut out, &threads[i]);
        i += 1;
    }
    proof {
        assert(threads@.skip(threads@.len() as int) =~= Seq::<Thread>::empty());
    }
    chars_to_string(&out)
}

fn push_mate_subject_line(out: &mut Vec<char>, t: &Thread)
    ensures
        final(out)@ == old(out)@ + mate_subject_line(*t),
{
    let ghost base = out@;
    append_i64(out, t.thread_key);
    out.push('.');
    out.push('d');
    out.push('a');
    out.push('t');
    out.push('<');
    out.push('>');
    append_str(out, t.title.as_str());
    out.push(' ');
    out.push('[');
    append_str(out, t.author_id.as_str());
    out.push('\u{2605}');
    out.push(']');
    out.push(' ');
    out.push('(');
    append_i64(out, t.response_count as i64);
    out.push(')');
    out.push('\n');
    proof {
        assert(out@ =~= base + mate_subject_line(*t));
    }
}

/// Render the variant listing that carries each opener's author id.
pub fn gen_mate_subject_txt(threads: &[Thread]) -> (r: String)
    ensures
        r@ == mate_subject_txt_of(threads@),
{
    let mut out: Vec<char> = Vec::new();
    let mut i: usize = 0;
    proof {
        assert(threads@.skip(0) =~= threads@);
    }
    while i < threads.len()
        invariant
            i <= threads@.len(),
            mate_subject_txt_of(threads@) == out@ + mate_subject_txt_of(threads@.skip(i as int)),
        decreases threads@.len() - i,
    {
        proof {
            assert(threads@.skip(i as int)[0] == threads@[i as int]);
            assert(threads@.skip(i as int).drop_first() =~= threads@.skip(i + 1));
        }
        push_mate_subject_line(&mut out, &threads[i]);
        i += 1;
    }
    proof {
        assert(threads@.skip(threads@.len() as int) =~= Seq::<Thread>::empty());
    }
    chars_to_string(&out)
}

fn push_anonymous_name(out: &mut Vec<char>)
    ensures
        final(out)@ == old(out)@ + anonymous_name(),
{
    let ghost base = out@;
    out.push('\u{30b9}');
    out.push('\u{30b1}');
    out.push('\u{30b9}');
    out.push('\u{30b1}');
    out.push('\u{306e}');
    out.push('\u{540d}');
    out.push('\u{7121}');
    out.push('\u{3057}');
    proof {
        assert(out@ =~= base + anonymous_name());
    }
}

fn push_dat_line(out: &mut Vec<char>, r: &Res, title: &str, first: bool)
    ensures
        final(out)@ == old(out)@ + dat_line(
            *r,
            if first {
                title@
            } else {
                seq![]
            },
        ),
{
    let ghost base = out@;
    if r.name.as_str().unicode_len() == 0 {
        push_anonymous_name(out);
    } else {
        append_str(out, r.name.as_str());
    }
    out.push('<');
    out.push('>');
    out.push('<');
    out.push('>');
    append_str(out, r.date_text.as_str());
    out.push(' ');
    out.push('I');
    out.push('D');
    out.push(':');
    append_str(out, r.author_id.as_str());
    out.push('<');
    out.push('>');
    out.push(' ');
    append_str(out, r.body.as_str());
    out.push('<');
    out.push('>');
    if first {
        append_str(out, title);
    }
    out.push('\n');
    proof {
        assert(out@ =~= base + dat_line(
            *r,
            if first {
                title@
            } else {
                seq![]
            },
        ));
    }
}

/// Render a thread's `.dat`: one line per response in storage order, the
/// title only on the first line, and the anonymous fallback for an empty
/// display name.
pub fn gen_dat(thread: &Thread, responses: &[Res]) -> (r: String)
    ensures
        r@ == dat_of(*thread, responses@),
{
    let mut out: Vec<char> = Vec::new();
    let mut i: usize = 0;
    proof {
        assert(responses@.skip(0) =~= responses@);
    }
    while i < responses.len()
        invariant
            i <= responses@.len(),
            dat_of(*thread, responses@) == out@ + dat_lines_of(
                thread.title@,
                responses@.skip(i as int),
                i == 0,
            ),
        decreases responses@.len() - i,
    {
        proof {
            assert(responses@.skip(i as int)[0] == responses@[i as int]);
            assert(responses@.skip(i as int).drop_first() =~= responses@.skip(i + 1));
        }
        push_dat_line(&mut out, &responses[i], thread.title.as_str(), i == 0);
        i += 1;
    }
    proof {
        assert(responses@.skip(responses@.len() as int) =~= Seq::<Res>::empty());
    }
    chars_to_string(&out)
}

/// Render a board's `SETTING.TXT`.
pub fn gen_setting_txt(board: &Board) -> (r: String)
    ensures
        r@ == setting_txt_of(*board),
{
    let mut out: Vec<char> = Vec::new();
    append_str(&mut out, "BBS_TITLE=");
    append_str(&mut out, board.name.as_str());
    out.push('\n');
    append_str(&mut out, "BBS_TITLE_ORIG=");
    append_str(&mut out, board.name.as_str());
    out.push('\n');
    append_str(&mut out, "BBS_NONAME_NAME=");
    push_anonymous_name(&mut out);
    proof {
        assert(out@ =~= setting_txt_of(*board));
    }
    chars_to_string(&out)
}

} // verus!
