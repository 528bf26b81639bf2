//! Two-stage text sanitizer for untrusted submissions.
//!
//! Stage one escapes the HTML-unsafe characters and drops the literal
//! newline reference `&#10;`. For thread titles two further stages run: every
//! semicolon-closed decimal or hex reference to code point ten is stripped,
//! and then a backtracking scan removes every numeric character reference
//! that is not closed by a semicolon.
use vstd::prelude::*;

use crate::strutil::{chars_to_string, str_to_chars};

verus! {

/// What stage one turns one character into.
pub open spec fn escape_char(c: char) -> Seq<char> {
    if c == '<' {
        seq!['&', 'l', 't', ';']
    } else if c == '>' {
        seq!['&', 'g', 't', ';']
    } else if c == '"' {
        seq!['&', 'q', 'u', 'o', 't', ';']
    } else if c == '\n' {
        seq!['<', 'b', 'r', '>']
    } else if c == '\r' {
        seq![]
    } else {
        seq![c]
    }
}

/// Stage one before the literal-reference removal: each character escaped.
pub open spec fn escape_text(s: Seq<char>) -> Seq<char>
    decreases s.len(),
{
    if s.len() == 0 {
        seq![]
    } else {
        escape_char(s[0]) + escape_text(s.drop_first())
    }
}

/// The literal newline reference.
pub open spec fn lf_ref() -> Seq<char> {
    seq!['&', '#', '1', '0', ';']
}

/// Left-to-right, non-overlapping removal of the literal `&#10;`; the scan
/// continues after a removed occurrence and never rescans what it built.
pub open spec fn remove_lf_refs(s: Seq<char>) -> Seq<char>
    decreases s.len(),
{
    if s.len() < 5 {
        s
    } else if s.take(5) == lf_ref() {
        remove_lf_refs(s.skip(5))
    } else {
        seq![s[0]] + remove_lf_refs(s.drop_first())
    }
}

/// The whole of stage one.
pub open spec fn sanitize_text(s: Seq<char>) -> Seq<char> {
    remove_lf_refs(escape_text(s))
}

fn escape_chars(v: &Vec<char>) -> (out: Vec<char>)
    ensures
        out@ == escape_text(v@),
{
    let mut out: Vec<char> = Vec::new();
    let mut i: usize = 0;
    proof {
        assert(v@.skip(0) =~= v@);
    }
    while i < v.len()
        invariant
            i <= v@.len(),
            escape_text(v@) == out@ + escape_text(v@.skip(i as int)),
        decreases v@.len() - i,
    {
        let ghost out0 = out@;
        let c = v[i];
        proof {
            assert(v@.skip(i as int)[0] == c);
            assert(v@.skip(i as int).drop_first() =~= v@.skip(i + 1));
        }
        if c == '<' {
            out.push('&');
            out.push('l');
            out.push('t');
            out.push(';');
        } else if c == '>' {
            out.push('&');
            out.push('g');
            out.push('t');
            out.push(';');
        } else if c == '"' {
            out.push('&');
            out.push('q');
            out.push('u');
            out.push('o');
            out.push('t');
            out.push(';');
        } else if c == '\n' {
            out.push('<');
            out.push('b');
            out.push('r');
            out.push('>');
        } else if c == '\r' {
        } else {
            out.push(c);
        }
        proof {
            assert(out@ =~= out0 + escape_char(c));
            assert(out@ + escape_text(v@.skip(i + 1)) =~= out0 + escape_text(v@.skip(i as int)));
        }
        i += 1;
    }
    proof {
        assert(v@.skip(v@.len() as int) =~= Seq::<char>::empty());
        assert(out@ + escape_text(v@.skip(v@.len() as int)) =~= out@);
    }
    out
}

fn remove_lf_ref_chars(v: &Vec<char>) -> (out: Vec<char>)
    ensures
        out@ == remove_lf_refs(v@),
{
    let mut out: Vec<char> = Vec::new();
    let mut i: usize = 0;
    proof {
        assert(v@.skip(0) =~= v@);
    }
    while i < v.len()
        invariant
            i <= v@.len(),
            remove_lf_refs(v@) == out@ + remove_lf_refs(v@.skip(i as int)),
        decreases v@.len() - i,
    {
        let ghost rest = v@.skip(i as int);
        if v.len() - i >= 5 && v[i] == '&' && v[i + 1] == '#' && v[i + 2] == '1' && v[i + 3] == '0'
            && v[i + 4] == ';' {
            proof {
                assert(rest.take(5) =~= lf_ref());
                assert(rest.skip(5) =~= v@.skip(i + 5));
            }
            i += 5;
        } else {
            proof {
                if rest.len() >= 5 {
                    assert(rest.take(5)[0] == v@[i as int]);
                    assert(rest.take(5)[1] == v@[i + 1]);
                    assert(rest.take(5)[2] == v@[i + 2]);
                    assert(rest.take(5)[3] == v@[i + 3]);
                    assert(rest.take(5)[4] == v@[i + 4]);
                    assert(rest.take(5) != lf_ref());
                    assert(rest.drop_first() =~= v@.skip(i + 1));
                } else {
                    assert(remove_lf_refs(rest) == rest);
                    assert(rest.drop_first() =~= v@.skip(i + 1));
                    assert(remove_lf_refs(rest.drop_first()) == rest.drop_first());
                    assert(rest =~= seq![rest[0]] + rest.drop_first());
                }
                assert(remove_lf_refs(rest) == seq![v@[i as int]] + remove_lf_refs(v@.skip(i + 1)));
            }
            out.push(v[i]);
            i += 1;
        }
    }
    proof {
        assert(v@.skip(v@.len() as int) =~= Seq::<char>::empty());
    }
    out
}

/// Escape the HTML-unsafe characters: `<` `>` `"` become entities, a newline
/// becomes `<br>`, a carriage return is dropped, and every literal `&#10;`
/// left after that is removed.
pub fn sanitize(input: &str) -> (r: String)
    ensures
        r@ == sanitize_text(input@),
{
    let chars = str_to_chars(input);
    let escaped = escape_chars(&chars);
    let removed = remove_lf_ref_chars(&escaped);
    chars_to_string(&removed)
}

/// How many `0` characters stand at the start of `s`.
pub open spec fn zeros_prefix(s: Seq<char>) -> int
    decreases s.len(),
{
    if s.len() > 0 && s[0] == '0' {
        1 + zeros_prefix(s.drop_first())
    } else {
        0
    }
}

/// The length of a semicolon-closed reference to code point ten at the start
/// of `s` — `&#` then either `x`/`X`, leading zeros and `a`/`A`, or leading
/// zeros and `10`, then `;` — or zero when none stands there.
pub open spec fn lf_closed_ref_len(s: Seq<char>) -> int {
    if s.len() >= 2 && s[0] == '&' && s[1] == '#' {
        if s.len() >= 3 && (s[2] == 'x' || s[2] == 'X') {
            let z = zeros_prefix(s.skip(3));
            if s.len() >= 5 + z && (s[3 + z] == 'a' || s[3 + z] == 'A') && s[4 + z] == ';' {
                5 + z
            } else {
                0
            }
        } else {
            let z = zeros_prefix(s.skip(2));
            if s.len() >= 5 + z && s[2 + z] == '1' && s[3 + z] == '0' && s[4 + z] == ';' {
                5 + z
            } else {
                0
            }
        }
    } else {
        0
    }
}

/// Left-to-right, non-overlapping removal of every semicolon-closed
/// reference to code point ten.
pub open spec fn remove_lf_closed_refs(s: Seq<char>) -> Seq<char>
    decreases s.len(),
{
    if s.len() == 0 {
        seq![]
    } else if lf_closed_ref_len(s) > 0 {
        remove_lf_closed_refs(s.skip(lf_closed_ref_len(s)))
    } else {
        seq![s[0]] + remove_lf_closed_refs(s.drop_first())
    }
}

/// No character of `s` is one stage one would rewrite.
pub open spec fn escape_free(s: Seq<char>) -> bool {
    forall|i: int|
        0 <= i < s.len() ==> (#[trigger] s[i]) != '<' && s[i] != '>' && s[i] != '"' && s[i] != '\n'
            && s[i] != '\r'
}

/// No quote, newline or carriage return stands in `s`.
pub open spec fn no_raw_ctl(s: Seq<char>) -> bool {
    forall|i: int|
        0 <= i < s.len() ==> (#[trigger] s[i]) != '"' && s[i] != '\n' && s[i] != '\r'
}

/// The literal newline reference stands somewhere in `s`.
pub open spec fn has_lf_ref(s: Seq<char>) -> bool {
    exists|i: int| 0 <= i && i + 5 <= s.len() && #[trigger] s.subrange(i, i + 5) == lf_ref()
}

proof fn lemma_escape_output_free(s: Seq<char>)
    requires
        !s.contains('\n'),
    ensures
        escape_free(escape_text(s)),
    decreases s.len(),
{
    if s.len() > 0 {
        assert(!s.drop_first().contains('\n')) by {
            if s.drop_first().contains('\n') {
                let k = choose|k: int|
                    0 <= k < s.drop_first().len() && s.drop_first()[k] == '\n';
                assert(s[k + 1] == '\n');
            }
        }
        lemma_escape_output_free(s.drop_first());
        assert(s[0] != '\n');
        let head = escape_char(s[0]);
        let text = escape_text(s);
        assert forall|i: int| 0 <= i < text.len() implies (#[trigger] text[i]) != '<' && text[i]
            != '>' && text[i] != '"' && text[i] != '\n' && text[i] != '\r' by {
            if i < head.len() {
                assert(text[i] == head[i]);
            } else {
                assert(text[i] == escape_text(s.drop_first())[i - head.len()]);
            }
        }
    }
}

proof fn lemma_escape_output_ctl(s: Seq<char>)
    ensures
        no_raw_ctl(escape_text(s)),
    decreases s.len(),
{
    if s.len() > 0 {
        lemma_escape_output_ctl(s.drop_first());
        let head = escape_char(s[0]);
        let text = escape_text(s);
        assert forall|i: int| 0 <= i < text.len() implies (#[trigger] text[i]) != '"' && text[i]
            != '\n' && text[i] != '\r' by {
            if i < head.len() {
                assert(text[i] == head[i]);
            } else {
                assert(text[i] == escape_text(s.drop_first())[i - head.len()]);
            }
        }
    }
}

proof fn lemma_remove_keeps_free(s: Seq<char>)
    requires
        escape_free(s),
    ensures
        escape_free(remove_lf_refs(s)),
    decreases s.len(),
{
    if s.len() < 5 {
    } else if s.take(5) == lf_ref() {
        assert forall|i: int| 0 <= i < s.skip(5).len() implies (#[trigger] s.skip(5)[i]) != '<'
            && s.skip(5)[i] != '>' && s.skip(5)[i] != '"' && s.skip(5)[i] != '\n' && s.skip(5)[i]
            != '\r' by {
            assert(s.skip(5)[i] == s[i + 5]);
        }
        lemma_remove_keeps_free(s.skip(5));
    } else {
        assert forall|i: int| 0 <= i < s.drop_first().len() implies (#[trigger] s.drop_first()[i])
            != '<' && s.drop_first()[i] != '>' && s.drop_first()[i] != '"' && s.drop_first()[i]
            != '\n' && s.drop_first()[i] != '\r' by {
            assert(s.drop_first()[i] == s[i + 1]);
        }
        lemma_remove_keeps_free(s.drop_first());
        let out = remove_lf_refs(s);
        let rest = remove_lf_refs(s.drop_first());
        assert forall|i: int| 0 <= i < out.len() implies (#[trigger] out[i]) != '<' && out[i]
            != '>' && out[i] != '"' && out[i] != '\n' && out[i] != '\r' by {
            if i == 0 {
                assert(out[0] == s[0]);
            } else {
                assert(out[i] == rest[i - 1]);
            }
        }
    }
}

proof fn lemma_remove_keeps_ctl(s: Seq<char>)
    requires
        no_raw_ctl(s),
    ensures
        no_raw_ctl(remove_lf_refs(s)),
    decreases s.len(),
{
    if s.len() < 5 {
    } else if s.take(5) == lf_ref() {
        assert forall|i: int| 0 <= i < s.skip(5).len() implies (#[trigger] s.skip(5)[i]) != '"'
            && s.skip(5)[i] != '\n' && s.skip(5)[i] != '\r' by {
            assert(s.skip(5)[i] == s[i + 5]);
        }
        lemma_remove_keeps_ctl(s.skip(5));
    } else {
        assert forall|i: int| 0 <= i < s.drop_first().len() implies (#[trigger] s.drop_first()[i])
            != '"' && s.drop_first()[i] != '\n' && s.drop_first()[i] != '\r' by {
            assert(s.drop_first()[i] == s[i + 1]);
        }
        lemma_remove_keeps_ctl(s.drop_first());
        let out = remove_lf_refs(s);
        let rest = remove_lf_refs(s.drop_first());
        assert forall|i: int| 0 <= i < out.len() implies (#[trigger] out[i]) != '"' && out[i]
            != '\n' && out[i] != '\r' by {
            if i == 0 {
                assert(out[0] == s[0]);
            } else {
                assert(out[i] == rest[i - 1]);
            }
        }
    }
}

proof fn lemma_escape_identity(s: Seq<char>)
    requires
        escape_free(s),
    ensures
        escape_text(s) == s,
    decreases s.len(),
{
    if s.len() > 0 {
        assert(s[0] != '<' && s[0] != '>' && s[0] != '"' && s[0] != '\n' && s[0] != '\r');
        assert forall|i: int| 0 <= i < s.drop_first().len() implies (#[trigger] s.drop_first()[i])
            != '<' && s.drop_first()[i] != '>' && s.drop_first()[i] != '"' && s.drop_first()[i]
            != '\n' && s.drop_first()[i] != '\r' by {
            assert(s.drop_first()[i] == s[i + 1]);
        }
        lemma_escape_identity(s.drop_first());
        assert(escape_text(s) =~= s);
    } else {
        assert(escape_text(s) =~= s);
    }
}

proof fn lemma_remove_identity(s: Seq<char>)
    requires
        !has_lf_ref(s),
    ensures
        remove_lf_refs(s) == s,
    decreases s.len(),
{
    if s.len() < 5 {
    } else if s.take(5) == lf_ref() {
        assert(s.subrange(0int, 0int + 5) == lf_ref());
        assert(has_lf_ref(s));
    } else {
        assert(!has_lf_ref(s.drop_first())) by {
            if has_lf_ref(s.drop_first()) {
                let k = choose|k: int|
                    0 <= k && k + 5 <= s.drop_first().len() && #[trigger] s.drop_first().subrange(
                        k,
                        k + 5,
                    ) == lf_ref();
                assert(s.subrange(k + 1, (k + 1) + 5) =~= s.drop_first().subrange(k, k + 5));
            }
        }
        lemma_remove_identity(s.drop_first());
        assert(remove_lf_refs(s) =~= s);
    }
}

/// The sanitized text never carries a quote, a newline or a carriage
/// return, whatever the input: those are escaped, converted, or dropped.
pub proof fn lemma_sanitize_no_raw(s: Seq<char>)
    ensures
        no_raw_ctl(sanitize_text(s)),
{
    lemma_escape_output_ctl(s);
    lemma_remove_keeps_ctl(escape_text(s));
}

/// Stage one is idempotent away from the two inputs that re-trigger it:
/// a newline — whose `<br>` a second pass would escape — and a text whose
/// first pass leaves a literal newline reference behind. On every other
/// input, sanitizing twice is sanitizing once.
pub proof fn lemma_sanitize_idempotent(s: Seq<char>)
    requires
        !s.contains('\n'),
        !has_lf_ref(sanitize_text(s)),
    ensures
        sanitize_text(sanitize_text(s)) == sanitize_text(s),
{
    let t = sanitize_text(s);
    lemma_escape_output_free(s);
    lemma_remove_keeps_free(escape_text(s));
    lemma_escape_identity(t);
    lemma_remove_identity(t);
}

/// The scanner's state while it reads a possible numeric reference.
#[derive(Clone, Copy)]
pub enum RefScanMode {
    /// Outside any reference attempt.
    Normal,
    /// Just read `&#`.
    SawHash,
    /// Inside `&#x...`.
    InHex,
    /// Inside `&#...` with decimal digits.
    InDec,
}

/// A decimal digit.
pub open spec fn is_dec_digit(c: char) -> bool {
    48 <= c as u32 <= 57
}

/// A hexadecimal digit of either case.
pub open spec fn is_hex_digit(c: char) -> bool {
    is_dec_digit(c) || (97 <= c as u32 <= 102) || (65 <= c as u32 <= 70)
}

/// One left-to-right scan over `rest`, carrying the scanner's mode, whether
/// the previous character was a tracked `&`, the output index `trunc` of that
/// `&`, and the output built so far. A reference that ends without its
/// semicolon is removed by truncating the output back to just before its `&`
/// and rescanning from the offending character, which may itself open a new
/// reference.
pub open spec fn scrub_run(
    mode: RefScanMode,
    amp: bool,
    trunc: int,
    out: Seq<char>,
    rest: Seq<char>,
) -> Seq<char>
    decreases rest.len(),
{
    if rest.len() == 0 {
        match mode {
            RefScanMode::Normal => out,
            _ => out.take(trunc),
        }
    } else {
        let c = rest[0];
        let rest2 = rest.drop_first();
        match mode {
            RefScanMode::Normal => {
                if c == '&' {
                    scrub_run(RefScanMode::Normal, true, out.len() as int, out.push(c), rest2)
                } else if amp && c == '#' {
                    scrub_run(RefScanMode::SawHash, false, trunc, out.push(c), rest2)
                } else {
                    scrub_run(RefScanMode::Normal, false, trunc, out.push(c), rest2)
                }
            },
            RefScanMode::SawHash => {
                if c == ';' {
                    scrub_run(RefScanMode::Normal, false, trunc, out.push(c), rest2)
                } else if c == 'x' || c == 'X' {
                    scrub_run(RefScanMode::InHex, false, trunc, out.push(c), rest2)
                } else if is_dec_digit(c) {
                    scrub_run(RefScanMode::InDec, false, trunc, out.push(c), rest2)
                } else {
                    scrub_run(RefScanMode::Normal, false, trunc, out.push(c), rest2)
                }
            },
            RefScanMode::InHex => {
                if c == ';' {
                    scrub_run(RefScanMode::Normal, false, trunc, out.push(c), rest2)
                } else if is_hex_digit(c) {
                    scrub_run(RefScanMode::InHex, false, trunc, out.push(c), rest2)
                } else {
                    scrub_run(
                        RefScanMode::Normal,
                        c == '&',
                        trunc,
                        out.take(trunc).push(c),
                        rest2,
                    )
                }
            },
            RefScanMode::InDec => {
                if c == ';' {
                    scrub_run(RefScanMode::Normal, false, trunc, out.push(c), rest2)
                } else if is_dec_digit(c) {
                    scrub_run(RefScanMode::InDec, false, trunc, out.push(c), rest2)
                } else {
                    scrub_run(
                        RefScanMode::Normal,
                        c == '&',
                        trunc,
                        out.take(trunc).push(c),
                        rest2,
                    )
                }
            },
        }
    }
}

/// The whole non-semicolon-closed-reference scrub of a text.
pub open spec fn scrub_refs(s: Seq<char>) -> Seq<char> {
    scrub_run(RefScanMode::Normal, false, 0, seq![], s)
}

fn is_dec_digit_exec(c: char) -> (r: bool)
    ensures
        r == is_dec_digit(c),
{
    let u = c as u32;
    48 <= u && u <= 57
}

fn is_hex_digit_exec(c: char) -> (r: bool)
    ensures
        r == is_hex_digit(c),
{
    let u = c as u32;
    (48 <= u && u <= 57) || (97 <= u && u <= 102) || (65 <= u && u <= 70)
}

fn scrub_chars(v: &Vec<char>) -> (out: Vec<char>)
    ensures
        out@ == scrub_refs(v@),
{
    let mut out: Vec<char> = Vec::new();
    let mut mode = RefScanMode::Normal;
    let mut amp = false;
    let mut trunc: usize = 0;
    let mut i: usize = 0;
    proof {
        assert(v@.skip(0) =~= v@);
    }
    while i < v.len()
        invariant
            i <= v@.len(),
            scrub_refs(v@) == scrub_run(mode, amp, trunc as int, out@, v@.skip(i as int)),
            mode is Normal && amp ==> trunc < out@.len(),
            !(mode is Normal) ==> trunc + 2 <= out@.len(),
        decreases v@.len() - i,
    {
        let c = v[i];
        let ghost out0 = out@;
        let ghost trunc0 = trunc as int;
        let ghost mode0 = mode;
        let ghost amp0 = amp;
        proof {
            assert(v@.skip(i as int)[0] == c);
            assert(v@.skip(i as int).drop_first() =~= v@.skip(i + 1));
        }
        match mode {
            RefScanMode::Normal => {
                if c == '&' {
                    trunc = out.len();
                    amp = true;
                    out.push(c);
                } else if amp && c == '#' {
                    mode = RefScanMode::SawHash;
                    amp = false;
                    out.push(c);
                } else {
                    amp = false;
                    out.push(c);
                }
            },
            RefScanMode::SawHash => {
                if c == ';' {
                    mode = RefScanMode::Normal;
                    amp = false;
                    out.push(c);
                } else if c == 'x' || c == 'X' {
                    mode = RefScanMode::InHex;
                    amp = false;
                    out.push(c);
                } else if is_dec_digit_exec(c) {
                    mode = RefScanMode::InDec;
                    amp = false;
                    out.push(c);
                } else {
                    mode = RefScanMode::Normal;
                    amp = false;
                    out.push(c);
                }
            },
            RefScanMode::InHex => {
                if c == ';' {
                    mode = RefScanMode::Normal;
                    amp = false;
                    out.push(c);
                } else if is_hex_digit_exec(c) {
                    out.push(c);
                } else {
                    out.truncate(trunc);
                    out.push(c);
                    mode = RefScanMode::Normal;
                    amp = c == '&';
                    proof {
                        assert(out@ =~= out0.take(trunc0).push(c));
                    }
                }
            },
            RefScanMode::InDec => {
                if c == ';' {
                    mode = RefScanMode::Normal;
                    amp = false;
                    out.push(c);
                } else if is_dec_digit_exec(c) {
                    out.push(c);
                } else {
                    out.truncate(trunc);
                    out.push(c);
                    mode = RefScanMode::Normal;
                    amp = c == '&';
                    proof {
                        assert(out@ =~= out0.take(trunc0).push(c));
                    }
                }
            },
        }
        proof {
            reveal_with_fuel(scrub_run, 2);
            assert(scrub_run(mode0, amp0, trunc0, out0, v@.skip(i as int)) == scrub_run(
                mode,
                amp,
                trunc as int,
                out@,
                v@.skip(i + 1),
            ));
        }
        i += 1;
    }
    proof {
        assert(v@.skip(v@.len() as int) =~= Seq::<char>::empty());
    }
    match mode {
        RefScanMode::Normal => out,
        _ => {
            out.truncate(trunc);
            out
        },
    }
}

/// Remove every numeric character reference that is not closed by a
/// semicolon, truncating each invalid or unterminated attempt back to just
/// before its `&` and rescanning from the character that broke it.
pub fn sanitize_non_semi_closing_num_char_refs(target: &str) -> (r: String)
    ensures
        r@ == scrub_refs(target@),
{
    let v = str_to_chars(target);
    let out = scrub_chars(&v);
    chars_to_string(&out)
}

/// Everything a thread title passes through: the stage-one escapes, then
/// removal of semicolon-closed newline references, then the scrub of
/// references that are not semicolon-closed.
pub open spec fn sanitize_title_text(s: Seq<char>) -> Seq<char> {
    scrub_refs(remove_lf_closed_refs(sanitize_text(s)))
}

/// Sanitize a thread title.
pub fn sanitize_thread_name(input: &str) -> (r: String)
    ensures
        r@ == sanitize_title_text(input@),
{
    let chars = str_to_chars(input);
    let escaped = escape_chars(&chars);
    let first = remove_lf_ref_chars(&escaped);
    let second = remove_lf_closed_ref_chars(&first);
    let third = scrub_chars(&second);
    chars_to_string(&third)
}

proof fn lemma_zeros_prefix_bounds(s: Seq<char>)
    ensures
        0 <= zeros_prefix(s) <= s.len(),
        forall|j: int| 0 <= j < zeros_prefix(s) ==> s[j] == '0',
        zeros_prefix(s) < s.len() ==> s[zeros_prefix(s)] != '0',
    decreases s.len(),
{
    if s.len() > 0 && s[0] == '0' {
        lemma_zeros_prefix_bounds(s.drop_first());
        assert forall|j: int| 0 <= j < zeros_prefix(s) implies s[j] == '0' by {
            if j > 0 {
                assert(s.drop_first()[j - 1] == s[j]);
            }
        }
    }
}

/// Count the `0` run in `v` from position `from`.
fn count_zeros(v: &Vec<char>, from: usize) -> (z: usize)
    requires
        from <= v@.len(),
    ensures
        z == zeros_prefix(v@.skip(from as int)),
        from + z <= v@.len(),
    decreases v@.len() - from,
{
    proof {
        lemma_zeros_prefix_bounds(v@.skip(from as int));
    }
    if from < v.len() && v[from] == '0' {
        proof {
            assert(v@.skip(from as int).drop_first() =~= v@.skip(from + 1));
        }
        let rest = count_zeros(v, from + 1);
        rest + 1
    } else {
        0
    }
}

/// The closed-reference length at position `i` of `v`.
fn closed_ref_len_at(v: &Vec<char>, i: usize) -> (l: usize)
    requires
        i < v@.len(),
    ensures
        l == lf_closed_ref_len(v@.skip(i as int)),
        i + l <= v@.len(),
    {
    let ghost rest = v@.skip(i as int);
    let n = v.len();
    if n - i >= 2 && v[i] == '&' && v[i + 1] == '#' {
        if n - i >= 3 && (v[i + 2] == 'x' || v[i + 2] == 'X') {
            proof {
                assert(rest.skip(3) =~= v@.skip(i + 3));
            }
            let z = count_zeros(v, i + 3);
            proof {
                lemma_zeros_prefix_bounds(v@.skip(i + 3));
            }
            if n - i >= 5 && z <= n - i - 5 && (v[i + 3 + z] == 'a' || v[i + 3 + z] == 'A') && v[i
                + 4 + z] == ';' {
                5 + z
            } else {
                0
            }
        } else {
            proof {
                assert(rest.skip(2) =~= v@.skip(i + 2));
            }
            let z = count_zeros(v, i + 2);
            proof {
                lemma_zeros_prefix_bounds(v@.skip(i + 2));
            }
            if n - i >= 5 && z <= n - i - 5 && v[i + 2 + z] == '1' && v[i + 3 + z] == '0' && v[i + 4
                + z] == ';' {
                5 + z
            } else {
                0
            }
        }
    } else {
        0
    }
}

/// Remove every semicolon-closed decimal or hex reference to code point ten.
fn remove_lf_closed_ref_chars(v: &Vec<char>) -> (out: Vec<char>)
    ensures
        out@ == remove_lf_closed_refs(v@),
{
    let mut out: Vec<char> = Vec::new();
    let mut i: usize = 0;
    proof {
        assert(v@.skip(0) =~= v@);
    }
    while i < v.len()
        invariant
            i <= v@.len(),
            remove_lf_closed_refs(v@) == out@ + remove_lf_closed_refs(v@.skip(i as int)),
        decreases v@.len() - i,
    {
        let ghost rest = v@.skip(i as int);
        let l = closed_ref_len_at(v, i);
        if l > 0 {
            proof {
                assert(rest.skip(l as int) =~= v@.skip(i + l));
            }
            i += l;
        } else {
            proof {
                assert(rest.drop_first() =~= v@.skip(i + 1));
            }
            out.push(v[i]);
            i += 1;
        }
    }
    proof {
        assert(v@.skip(v@.len() as int) =~= Seq::<char>::empty());
    }
    out
}

} // verus!
