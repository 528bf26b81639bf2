//! The Shift-JIS form-body codec.
//!
//! A request body is decoded as Shift-JIS text once, then read as `key=value`
//! pairs joined by `&`. Each value is percent/plus-decoded at the byte level
//! — the escapes carry raw Shift-JIS octets — and the resulting bytes are
//! decoded as Shift-JIS again for that value alone.
use vstd::prelude::*;

use crate::errors::FormError;
use crate::outside::{sjis_decode, sjis_decode_of};
use crate::strutil::{chars_to_string, str_to_chars};

verus! {

use vstd::utf8::{encode_scalar, encode_utf8};

/// An ASCII hex digit, as the original form decoder accepts them.
pub open spec fn is_hex_digit_byte(b: u8) -> bool {
    (48 <= b && b <= 57) || (65 <= b && b <= 70) || (97 <= b && b <= 102)
}

/// The value of an ASCII hex digit.
pub open spec fn hex_val(b: u8) -> u8 {
    if 48 <= b && b <= 57 {
        (b - 48) as u8
    } else if 65 <= b && b <= 70 {
        (b - 65 + 10) as u8
    } else {
        (b - 97 + 10) as u8
    }
}

/// Percent/plus decoding over raw bytes. `%` takes the next two bytes as hex
/// digits — anything else there fails; a `%` with fewer than two bytes left
/// swallows what remains; `+` is a space; every other byte is copied.
pub open spec fn percent_decode_bytes(b: Seq<u8>) -> Option<Seq<u8>>
    decreases b.len(),
{
    if b.len() == 0 {
        Some(Seq::<u8>::empty())
    } else if b[0] == 0x25 {
        if b.len() >= 3 {
            if is_hex_digit_byte(b[1]) && is_hex_digit_byte(b[2]) {
                match percent_decode_bytes(b.skip(3)) {
                    Some(t) => Some(seq![(hex_val(b[1]) * 0x10 + hex_val(b[2])) as u8] + t),
                    None => None,
                }
            } else {
                None
            }
        } else {
            Some(Seq::<u8>::empty())
        }
    } else if b[0] == 0x2b {
        match percent_decode_bytes(b.skip(1)) {
            Some(t) => Some(seq![0x20u8] + t),
            None => None,
        }
    } else {
        match percent_decode_bytes(b.skip(1)) {
            Some(t) => Some(seq![b[0]] + t),
            None => None,
        }
    }
}

/// Append the UTF-8 encoding of one character.
fn push_utf8(out: &mut Vec<u8>, c: char)
    ensures
        final(out)@ == old(out)@ + encode_scalar(c as u32),
{
    broadcast use vstd::utf8::char_is_scalar;

    let ghost out0 = out@;
    let u = c as u32;
    if u <= 0x7F {
        out.push((u & 0x7F) as u8);
    } else if u <= 0x7FF {
        out.push(0xC0 | ((u >> 6) & 0x1F) as u8);
        out.push(0x80 | (u & 0x3F) as u8);
    } else if u <= 0xFFFF {
        out.push(0xE0 | ((u >> 12) & 0x0F) as u8);
        out.push(0x80 | ((u >> 6) & 0x3F) as u8);
        out.push(0x80 | (u & 0x3F) as u8);
    } else {
        out.push(0xF0 | ((u >> 18) & 0x7) as u8);
        out.push(0x80 | ((u >> 12) & 0x3F) as u8);
        out.push(0x80 | ((u >> 6) & 0x3F) as u8);
        out.push(0x80 | (u & 0x3F) as u8);
    }
    proof {
        assert(out@ =~= out0 + encode_scalar(c as u32));
    }
}

/// The UTF-8 bytes of a character sequence.
pub fn chars_to_utf8(v: &Vec<char>) -> (out: Vec<u8>)
    ensures
        out@ == encode_utf8(v@),
{
    let mut out: Vec<u8> = Vec::new();
    let mut i: usize = 0;
    proof {
        assert(v@.skip(0) =~= v@);
    }
    while i < v.len()
        invariant
            i <= v@.len(),
            encode_utf8(v@) == out@ + encode_utf8(v@.skip(i as int)),
        decreases v@.len() - i,
    {
        proof {
            assert(v@.skip(i as int)[0] == v@[i as int]);
            assert(v@.skip(i as int).drop_first() =~= v@.skip(i + 1));
        }
        push_utf8(&mut out, v[i]);
        i += 1;
    }
    proof {
        assert(v@.skip(v@.len() as int) =~= Seq::<char>::empty());
    }
    out
}

fn is_hex_digit_byte_exec(b: u8) -> (r: bool)
    ensures
        r == is_hex_digit_byte(b),
{
    (48 <= b && b <= 57) || (65 <= b && b <= 70) || (97 <= b && b <= 102)
}

fn hex_val_exec(b: u8) -> (r: u8)
    requires
        is_hex_digit_byte(b),
    ensures
        r == hex_val(b),
{
    if 48 <= b && b <= 57 {
        b - 48
    } else if 65 <= b && b <= 70 {
        b - 65 + 10
    } else {
        b - 97 + 10
    }
}

/// Percent/plus-decode a byte sequence; nothing when a percent escape is
/// malformed.
pub fn percent_decode(v: &Vec<u8>) -> (r: Option<Vec<u8>>)
    ensures
        match r {
            Some(out) => percent_decode_bytes(v@) == Some(out@),
            None => percent_decode_bytes(v@) is None,
        },
{
    let mut out: Vec<u8> = Vec::new();
    let mut i: usize = 0;
    proof {
        assert(v@.skip(0) =~= v@);
    }
    while i < v.len()
        invariant
            i <= v@.len(),
            percent_decode_bytes(v@) == match percent_decode_bytes(v@.skip(i as int)) {
                Some(t) => Some(out@ + t),
                None => None::<Seq<u8>>,
            },
        decreases v@.len() - i,
    {
        let ghost rest = v@.skip(i as int);
        let b = v[i];
        proof {
            assert(rest[0] == b);
        }
        if b == 0x25 {
            if v.len() - i >= 3 {
                let h1 = v[i + 1];
                let h2 = v[i + 2];
                proof {
                    assert(rest[1] == h1);
                    assert(rest[2] == h2);
                    assert(rest.skip(3) =~= v@.skip(i + 3));
                }
                if is_hex_digit_byte_exec(h1) && is_hex_digit_byte_exec(h2) {
                    out.push(hex_val_exec(h1) * 0x10 + hex_val_exec(h2));
                    i += 3;
                } else {
                    return None;
                }
            } else {
                proof {
                    assert(percent_decode_bytes(rest) == Some(Seq::<u8>::empty()));
                    assert(v@.skip(v@.len() as int) =~= Seq::<u8>::empty());
                }
                i = v.len();
            }
        } else if b == 0x2b {
            proof {
                assert(rest.skip(1) =~= v@.skip(i + 1));
            }
            out.push(0x20);
            i += 1;
        } else {
            proof {
                assert(rest.skip(1) =~= v@.skip(i + 1));
            }
            out.push(b);
            i += 1;
        }
    }
    proof {
        assert(v@.skip(v@.len() as int) =~= Seq::<u8>::empty());
    }
    Some(out)
}

/// A letter or digit of ASCII, sent verbatim by the percent encoder.
pub open spec fn is_alnum_byte(b: u8) -> bool {
    (48 <= b && b <= 57) || (65 <= b && b <= 90) || (97 <= b && b <= 122)
}

/// The uppercase hex digit character for a value below sixteen.
pub open spec fn hex_digit_char(d: u8) -> char {
    if d == 0 {
        '0'
    } else if d == 1 {
        '1'
    } else if d == 2 {
        '2'
    } else if d == 3 {
        '3'
    } else if d == 4 {
        '4'
    } else if d == 5 {
        '5'
    } else if d == 6 {
        '6'
    } else if d == 7 {
        '7'
    } else if d == 8 {
        '8'
    } else if d == 9 {
        '9'
    } else if d == 10 {
        'A'
    } else if d == 11 {
        'B'
    } else if d == 12 {
        'C'
    } else if d == 13 {
        'D'
    } else if d == 14 {
        'E'
    } else {
        'F'
    }
}

/// What the percent encoder writes for one byte: letters and digits
/// verbatim, anything else as `%` and two uppercase hex digits.
pub open spec fn percent_encode_byte(b: u8) -> Seq<char> {
    if is_alnum_byte(b) {
        seq![b as char]
    } else {
        seq!['%', hex_digit_char(b / 16), hex_digit_char(b % 16)]
    }
}

/// The percent encoding of a byte sequence.
pub open spec fn percent_encode_text(bs: Seq<u8>) -> Seq<char>
    decreases bs.len(),
{
    if bs.len() == 0 {
        seq![]
    } else {
        percent_encode_byte(bs[0]) + percent_encode_text(bs.drop_first())
    }
}

fn hex_digit_char_exec(d: u8) -> (c: char)
    requires
        d < 16,
    ensures
        c == hex_digit_char(d),
{
    if d == 0 {
        '0'
    } else if d == 1 {
        '1'
    } else if d == 2 {
        '2'
    } else if d == 3 {
        '3'
    } else if d == 4 {
        '4'
    } else if d == 5 {
        '5'
    } else if d == 6 {
        '6'
    } else if d == 7 {
        '7'
    } else if d == 8 {
        '8'
    } else if d == 9 {
        '9'
    } else if d == 10 {
        'A'
    } else if d == 11 {
        'B'
    } else if d == 12 {
        'C'
    } else if d == 13 {
        'D'
    } else if d == 14 {
        'E'
    } else {
        'F'
    }
}

/// Percent-encode raw bytes for a form value.
pub fn percent_encode(v: &Vec<u8>) -> (r: String)
    ensures
        r@ == percent_encode_text(v@),
{
    let mut out: Vec<char> = Vec::new();
    let mut i: usize = 0;
    proof {
        assert(v@.skip(0) =~= v@);
    }
    while i < v.len()
        invariant
            i <= v@.len(),
            percent_encode_text(v@) == out@ + percent_encode_text(v@.skip(i as int)),
        decreases v@.len() - i,
    {
        let ghost out0 = out@;
        let b = v[i];
        proof {
            assert(v@.skip(i as int)[0] == b);
            assert(v@.skip(i as int).drop_first() =~= v@.skip(i + 1));
        }
        if (48 <= b && b <= 57) || (65 <= b && b <= 90) || (97 <= b && b <= 122) {
            out.push(b as char);
        } else {
            out.push('%');
            out.push(hex_digit_char_exec(b / 16));
            out.push(hex_digit_char_exec(b % 16));
        }
        proof {
            assert(out@ =~= out0 + percent_encode_byte(b));
        }
        i += 1;
    }
    proof {
        assert(v@.skip(v@.len() as int) =~= Seq::<u8>::empty());
    }
    chars_to_string(&out)
}

proof fn lemma_percent_encode_ascii(bs: Seq<u8>)
    ensures
        vstd::utf8::is_ascii_chars(percent_encode_text(bs)),
    decreases bs.len(),
{
    if bs.len() > 0 {
        lemma_percent_encode_ascii(bs.drop_first());
        let head = percent_encode_byte(bs[0]);
        let text = percent_encode_text(bs);
        assert forall|i: int| 0 <= i < text.len() implies '\0' <= #[trigger] text[i]
            <= '\u{7f}' by {
            if i < head.len() {
                assert(text[i] == head[i]);
            } else {
                assert(text[i] == percent_encode_text(bs.drop_first())[i - head.len()]);
            }
        }
    }
}

/// The codec round-trips: what the percent encoder writes, carried as the
/// UTF-8 bytes of a form value, the percent decoder reads back to the very
/// bytes — for every byte sequence.
pub proof fn lemma_percent_round_trip(bs: Seq<u8>)
    ensures
        percent_decode_bytes(encode_utf8(percent_encode_text(bs))) == Some(bs),
    decreases bs.len(),
{
    lemma_percent_encode_ascii(bs);
    vstd::utf8::is_ascii_chars_encode_utf8(percent_encode_text(bs));
    if bs.len() == 0 {
        assert(percent_encode_text(bs) =~= Seq::<char>::empty());
        assert(encode_utf8(percent_encode_text(bs)) =~= Seq::<u8>::empty());
    } else {
        let b = bs[0];
        let rest = bs.drop_first();
        lemma_percent_round_trip(rest);
        lemma_percent_encode_ascii(rest);
        vstd::utf8::is_ascii_chars_encode_utf8(percent_encode_text(rest));
        let text = percent_encode_text(bs);
        let head = percent_encode_byte(b);
        let bytes = encode_utf8(text);
        let rest_bytes = encode_utf8(percent_encode_text(rest));
        assert(text == head + percent_encode_text(rest));
        assert(bytes =~= Seq::new(text.len(), |i: int| text[i] as u8));
        assert(rest_bytes =~= Seq::new(
            percent_encode_text(rest).len(),
            |i: int| percent_encode_text(rest)[i] as u8,
        ));
        if is_alnum_byte(b) {
            assert(text[0] == b as char);
            assert(bytes[0] == b);
            assert(bytes[0] != 0x25 && bytes[0] != 0x2b);
            assert(bytes.skip(1) =~= rest_bytes);
            assert(percent_decode_bytes(bytes) == Some(seq![b] + rest));
            assert(seq![b] + rest =~= bs);
        } else {
            let hi = hex_digit_char(b / 16);
            let lo = hex_digit_char(b % 16);
            assert(text[0] == '%' && text[1] == hi && text[2] == lo);
            assert(bytes[0] == 0x25);
            assert(bytes[1] == hi as u8);
            assert(bytes[2] == lo as u8);
            assert(is_hex_digit_byte(hi as u8));
            assert(is_hex_digit_byte(lo as u8));
            assert(hex_val(hi as u8) == b / 16);
            assert(hex_val(lo as u8) == b % 16);
            assert(hex_val(bytes[1]) * 0x10 + hex_val(bytes[2]) == b);
            assert(bytes.skip(3) =~= rest_bytes);
            assert(percent_decode_bytes(bytes) == Some(seq![b] + rest));
            assert(seq![b] + rest =~= bs);
        }
    }
}

/// The position of the first `c` in `s`, or a negative value when none
/// stands there.
pub open spec fn find_char(s: Seq<char>, c: char) -> int
    decreases s.len(),
{
    if s.len() == 0 {
        -1
    } else if s[0] == c {
        0
    } else {
        let r = find_char(s.drop_first(), c);
        if r < 0 {
            -1
        } else {
            r + 1
        }
    }
}

/// `s` split at every `c`, the separators dropped; one piece — possibly
/// empty — more than there are separators.
pub open spec fn split_char(s: Seq<char>, c: char) -> Seq<Seq<char>>
    decreases s.len(),
    via split_char_decreases
{
    let f = find_char(s, c);
    if f < 0 {
        seq![s]
    } else {
        seq![s.take(f)] + split_char(s.skip(f + 1), c)
    }
}

#[via_fn]
proof fn split_char_decreases(s: Seq<char>, c: char) {
    lemma_find_char_bounds(s, c);
}

/// The views of a sequence of character vectors.
pub open spec fn views_of(vs: Seq<Vec<char>>) -> Seq<Seq<char>> {
    Seq::new(vs.len(), |i: int| vs[i]@)
}

proof fn lemma_find_char_bounds(s: Seq<char>, c: char)
    ensures
        find_char(s, c) < s.len(),
        find_char(s, c) >= 0 ==> s[find_char(s, c)] == c,
        find_char(s, c) >= 0 ==> forall|j: int| 0 <= j < find_char(s, c) ==> s[j] != c,
        find_char(s, c) < 0 ==> forall|j: int| 0 <= j < s.len() ==> s[j] != c,
    decreases s.len(),
{
    if s.len() > 0 && s[0] != c {
        lemma_find_char_bounds(s.drop_first(), c);
        assert forall|j: int| 0 <= j < s.len() && (find_char(s, c) < 0 || j < find_char(s, c))
            implies s[j] != c by {
            if j > 0 {
                assert(s.drop_first()[j - 1] == s[j]);
            }
        }
    }
}

proof fn lemma_find_char_at(s: Seq<char>, c: char, k: int)
    requires
        0 <= k <= s.len(),
        forall|j: int| 0 <= j < k ==> s[j] != c,
        k < s.len() ==> s[k] == c,
    ensures
        k < s.len() ==> find_char(s, c) == k,
        k == s.len() ==> find_char(s, c) < 0,
    decreases s.len(),
{
    if s.len() > 0 && s[0] != c {
        assert forall|j: int| 0 <= j < k - 1 implies s.drop_first()[j] != c by {
            assert(s.drop_first()[j] == s[j + 1]);
        }
        if k > 0 {
            assert(k - 1 < s.drop_first().len() ==> s.drop_first()[k - 1] == c);
            lemma_find_char_at(s.drop_first(), c, k - 1);
        }
    }
}

/// Split the characters at every `c`.
pub fn split_on_char(v: &Vec<char>, c: char) -> (out: Vec<Vec<char>>)
    ensures
        views_of(out@) == split_char(v@, c),
{
    let mut out: Vec<Vec<char>> = Vec::new();
    let mut piece_start: usize = 0;
    let mut i: usize = 0;
    proof {
        assert(v@.skip(0) =~= v@);
    }
    while i < v.len()
        invariant
            piece_start <= i <= v@.len(),
            forall|j: int| piece_start <= j < i ==> v@[j] != c,
            split_char(v@, c) == views_of(out@) + split_char(v@.skip(piece_start as int), c),
        decreases v@.len() - i,
    {
        if v[i] == c {
            let ghost rest = v@.skip(piece_start as int);
            let mut piece: Vec<char> = Vec::new();
            let mut k: usize = piece_start;
            while k < i
                invariant
                    piece_start <= k <= i <= v@.len(),
                    piece@ == v@.subrange(piece_start as int, k as int),
                decreases i - k,
            {
                piece.push(v[k]);
                proof {
                    assert(v@.subrange(piece_start as int, k + 1) =~= v@.subrange(
                        piece_start as int,
                        k as int,
                    ).push(v@[k as int]));
                }
                k += 1;
            }
            let ghost out0 = out@;
            out.push(piece);
            proof {
                let f = i - piece_start;
                assert forall|j: int| 0 <= j < f implies rest[j] != c by {
                    assert(rest[j] == v@[piece_start + j]);
                }
                assert(rest[f] == c);
                lemma_find_char_at(rest, c, f);
                assert(rest.take(f) =~= v@.subrange(piece_start as int, i as int));
                assert(rest.skip(f + 1) =~= v@.skip(i + 1));
                assert(views_of(out@) =~= views_of(out0) + seq![piece@]);
                assert((views_of(out0) + seq![piece@]) + split_char(v@.skip(i + 1), c)
                    =~= views_of(out0) + (seq![piece@] + split_char(v@.skip(i + 1), c)));
            }
            i += 1;
            piece_start = i;
        } else {
            i += 1;
        }
    }
    let ghost rest = v@.skip(piece_start as int);
    let mut piece: Vec<char> = Vec::new();
    let mut k: usize = piece_start;
    while k < v.len()
        invariant
            piece_start <= k <= v@.len(),
            piece@ == v@.subrange(piece_start as int, k as int),
        decreases v@.len() - k,
    {
        piece.push(v[k]);
        proof {
            assert(v@.subrange(piece_start as int, k + 1) =~= v@.subrange(
                piece_start as int,
                k as int,
            ).push(v@[k as int]));
        }
        k += 1;
    }
    let ghost out0 = out@;
    out.push(piece);
    proof {
        assert forall|j: int| 0 <= j < rest.len() implies rest[j] != c by {
            assert(rest[j] == v@[piece_start + j]);
        }
        lemma_find_char_at(rest, c, rest.len() as int);
        assert(split_char(rest, c) == seq![rest]);
        assert(piece@ =~= rest);
        assert(views_of(out@) =~= views_of(out0) + seq![piece@]);
    }
    out
}

/// One `key=value` pair read from a segment: exactly one `=`, the value's
/// bytes percent-decoded and then Shift-JIS decoded.
pub open spec fn parse_pair(seg: Seq<char>) -> Option<(Seq<char>, Seq<char>)> {
    let ps = split_char(seg, '=');
    if ps.len() != 2 {
        None
    } else {
        match percent_decode_bytes(encode_utf8(ps[1])) {
            Some(bytes) => Some((ps[0], sjis_decode_of(bytes))),
            None => None,
        }
    }
}

/// Every pair of a form body, in order; nothing when any segment is
/// malformed.
pub open spec fn parse_pairs(segs: Seq<Seq<char>>) -> Option<Seq<(Seq<char>, Seq<char>)>>
    decreases segs.len(),
{
    if segs.len() == 0 {
        Some(Seq::<(Seq<char>, Seq<char>)>::empty())
    } else {
        match parse_pair(segs[0]) {
            Some(p) => match parse_pairs(segs.drop_first()) {
                Some(r) => Some(seq![p] + r),
                None => None,
            },
            None => None,
        }
    }
}

/// What decoding a whole form body text yields.
pub open spec fn parse_form_text(data: Seq<char>) -> Option<Seq<(Seq<char>, Seq<char>)>> {
    parse_pairs(split_char(data, '&'))
}

/// One encoded pair of a form body: the key, `=`, and the percent encoding
/// of the value's Shift-JIS bytes.
pub open spec fn encode_pair(key: Seq<char>, value: Seq<char>) -> Seq<char> {
    key + seq!['='] + percent_encode_text(crate::outside::sjis_encode_of(value))
}

/// A whole form body for a pair sequence, the pairs joined with `&`.
pub open spec fn encode_form(pairs: Seq<(Seq<char>, Seq<char>)>) -> Seq<char>
    decreases pairs.len(),
{
    if pairs.len() == 0 {
        seq![]
    } else if pairs.len() == 1 {
        encode_pair(pairs[0].0, pairs[0].1)
    } else {
        encode_pair(pairs[0].0, pairs[0].1) + seq!['&'] + encode_form(pairs.drop_first())
    }
}

/// A key a form body can carry verbatim: free of the two separators.
pub open spec fn plain_key(key: Seq<char>) -> bool {
    forall|j: int| 0 <= j < key.len() ==> (#[trigger] key[j]) != '&' && key[j] != '='
}

proof fn lemma_percent_encode_no_separators(bs: Seq<u8>)
    ensures
        forall|j: int|
            0 <= j < percent_encode_text(bs).len() ==> (#[trigger] percent_encode_text(bs)[j])
                != '&' && percent_encode_text(bs)[j] != '=',
    decreases bs.len(),
{
    if bs.len() > 0 {
        lemma_percent_encode_no_separators(bs.drop_first());
        let head = percent_encode_byte(bs[0]);
        let text = percent_encode_text(bs);
        assert forall|j: int| 0 <= j < text.len() implies (#[trigger] text[j]) != '&' && text[j]
            != '=' by {
            if j < head.len() {
                assert(text[j] == head[j]);
            } else {
                assert(text[j] == percent_encode_text(bs.drop_first())[j - head.len()]);
            }
        }
    }
}

proof fn lemma_split_char_whole(s: Seq<char>, c: char)
    requires
        forall|j: int| 0 <= j < s.len() ==> (#[trigger] s[j]) != c,
    ensures
        split_char(s, c) == seq![s],
{
    lemma_find_char_at(s, c, s.len() as int);
}

proof fn lemma_split_char_prefix(s: Seq<char>, c: char, pre: Seq<char>, rest: Seq<char>)
    requires
        s == pre + seq![c] + rest,
        forall|j: int| 0 <= j < pre.len() ==> (#[trigger] pre[j]) != c,
    ensures
        split_char(s, c) == seq![pre] + split_char(rest, c),
{
    assert forall|j: int| 0 <= j < pre.len() implies s[j] != c by {
        assert(s[j] == pre[j]);
    }
    assert(s[pre.len() as int] == c);
    lemma_find_char_at(s, c, pre.len() as int);
    assert(s.take(pre.len() as int) =~= pre);
    assert(s.skip(pre.len() as int + 1) =~= rest);
}

proof fn lemma_parse_encoded_pair(key: Seq<char>, value: Seq<char>)
    requires
        plain_key(key),
    ensures
        parse_pair(encode_pair(key, value)) == Some(
            (key, sjis_decode_of(crate::outside::sjis_encode_of(value))),
        ),
{
    let bytes = crate::outside::sjis_encode_of(value);
    let enc = percent_encode_text(bytes);
    let seg = encode_pair(key, value);
    lemma_percent_encode_no_separators(bytes);
    assert(seg =~= key + seq!['='] + enc);
    lemma_split_char_prefix(seg, '=', key, enc);
    lemma_split_char_whole(enc, '=');
    assert(split_char(seg, '=') == seq![key] + seq![enc]);
    assert((seq![key] + seq![enc]).len() == 2);
    assert((seq![key] + seq![enc])[0] == key);
    assert((seq![key] + seq![enc])[1] == enc);
    lemma_percent_round_trip(bytes);
}

/// The codec round-trips whole field maps: encoding any non-empty map whose
/// keys are free of `&` and `=`, and decoding the body, yields exactly the
/// keys in order, each value read back through the Shift-JIS codec as the
/// decoding of its own encoding.
pub proof fn lemma_form_round_trip(pairs: Seq<(Seq<char>, Seq<char>)>)
    requires
        pairs.len() >= 1,
        forall|k: int| 0 <= k < pairs.len() ==> plain_key(#[trigger] pairs[k].0),
    ensures
        parse_form_text(encode_form(pairs)) == Some(
            Seq::new(
                pairs.len(),
                |k: int|
                    (pairs[k].0, sjis_decode_of(crate::outside::sjis_encode_of(pairs[k].1))),
            ),
        ),
    decreases pairs.len(),
{
    let body = encode_form(pairs);
    let key = pairs[0].0;
    let value = pairs[0].1;
    let head = encode_pair(key, value);
    let enc = percent_encode_text(crate::outside::sjis_encode_of(value));
    let decoded0 = (key, sjis_decode_of(crate::outside::sjis_encode_of(value)));
    lemma_percent_encode_no_separators(crate::outside::sjis_encode_of(value));
    lemma_parse_encoded_pair(key, value);
    assert forall|j: int| 0 <= j < head.len() implies (#[trigger] head[j]) != '&' by {
        if j < key.len() {
            assert(head[j] == key[j]);
        } else if j == key.len() {
            assert(head[j] == '=');
        } else {
            assert(head[j] == enc[j - key.len() - 1]);
        }
    }
    if pairs.len() == 1 {
        reveal_with_fuel(parse_pairs, 3);
        lemma_split_char_whole(body, '&');
        assert(body == head);
        assert(parse_pair(body) == Some(decoded0));
        assert((seq![body])[0] == body);
        assert((seq![body]).drop_first() =~= Seq::<Seq<char>>::empty());
        assert(parse_pairs(seq![body]) == Some(seq![decoded0] + Seq::<(
            Seq<char>,
            Seq<char>,
        )>::empty()));
        assert(seq![decoded0] + Seq::<(Seq<char>, Seq<char>)>::empty() =~= Seq::new(
            pairs.len(),
            |k: int| (pairs[k].0, sjis_decode_of(crate::outside::sjis_encode_of(pairs[k].1))),
        ));
    } else {
        let rest = pairs.drop_first();
        let rest_body = encode_form(rest);
        assert forall|k: int| 0 <= k < rest.len() implies plain_key(#[trigger] rest[k].0) by {
            assert(rest[k] == pairs[k + 1]);
        }
        lemma_form_round_trip(rest);
        assert(body =~= head + seq!['&'] + rest_body);
        lemma_split_char_prefix(body, '&', head, rest_body);
        let segs = seq![head] + split_char(rest_body, '&');
        assert(split_char(body, '&') == segs);
        assert(segs[0] == head);
        assert(segs.drop_first() =~= split_char(rest_body, '&'));
        let rest_decoded = Seq::new(
            rest.len(),
            |k: int| (rest[k].0, sjis_decode_of(crate::outside::sjis_encode_of(rest[k].1))),
        );
        assert(parse_pairs(segs) == Some(seq![decoded0] + rest_decoded));
        assert(seq![decoded0] + rest_decoded =~= Seq::new(
            pairs.len(),
            |k: int| (pairs[k].0, sjis_decode_of(crate::outside::sjis_encode_of(pairs[k].1))),
        ));
    }
}

/// The decoded form: field names mapped to decoded texts, a later pair
/// shadowing an earlier one of the same name.
#[derive(Debug)]
pub struct FieldMap {
    /// The decoded pairs in body order.
    pub pairs: Vec<(String, String)>,
}

impl View for FieldMap {
    type V = Seq<(Seq<char>, Seq<char>)>;

    open spec fn view(&self) -> Seq<(Seq<char>, Seq<char>)> {
        Seq::new(self.pairs@.len(), |i: int| (self.pairs@[i].0@, self.pairs@[i].1@))
    }
}

/// The value of `key` in the pair sequence; the last occurrence wins.
pub open spec fn lookup(m: Seq<(Seq<char>, Seq<char>)>, key: Seq<char>) -> Option<Seq<char>>
    decreases m.len(),
{
    if m.len() == 0 {
        None
    } else if m.last().0 == key {
        Some(m.last().1)
    } else {
        lookup(m.drop_last(), key)
    }
}

impl FieldMap {
    /// Look a field up by name; of two pairs with one name the later wins.
    pub fn get(&self, key: &str) -> (r: Option<&String>)
        ensures
            match r {
                Some(s) => lookup(self@, key@) == Some(s@),
                None => lookup(self@, key@) is None,
            },
    {
        let mut i: usize = self.pairs.len();
        proof {
            assert(self@.take(i as int) =~= self@);
        }
        while i > 0
            invariant
                i <= self.pairs@.len(),
                lookup(self@, key@) == lookup(self@.take(i as int), key@),
            decreases i,
        {
            i -= 1;
            let found = crate::strutil::str_eq(self.pairs[i].0.as_str(), key);
            proof {
                assert(self@.take(i + 1).last() == (self.pairs@[i as int].0@,
                self.pairs@[i as int].1@));
                assert(self@.take(i + 1).drop_last() =~= self@.take(i as int));
            }
            if found {
                return Some(&self.pairs[i].1);
            }
        }
        proof {
            assert(self@.take(0) =~= Seq::<(Seq<char>, Seq<char>)>::empty());
        }
        None
    }
}

/// Decode a Shift-JIS percent-encoded form body text into its field map.
/// Fails exactly when a segment has more or fewer than one `=`, or a percent
/// escape is not two hex digits.
pub fn shift_jis_url_encodeded_body_to_vec(data: &str) -> (r: Result<FieldMap, FormError>)
    ensures
        match r {
            Ok(m) => parse_form_text(data@) == Some(m@),
            Err(e) => parse_form_text(data@) is None && e == FormError::MalformedForm,
        },
{
    let v = str_to_chars(data);
    let segs = split_on_char(&v, '&');
    let mut pairs: Vec<(String, String)> = Vec::new();
    let mut k: usize = 0;
    let ghost all = views_of(segs@);
    proof {
        assert(all.skip(0) =~= all);
    }
    while k < segs.len()
        invariant
            k <= segs@.len(),
            all == views_of(segs@),
            all == split_char(data@, '&'),
            all.len() == segs@.len(),
            parse_pairs(all) == match parse_pairs(all.skip(k as int)) {
                Some(t) => Some(
                    Seq::new(pairs@.len(), |i: int| (pairs@[i].0@, pairs@[i].1@)) + t,
                ),
                None => None::<Seq<(Seq<char>, Seq<char>)>>,
            },
        decreases segs@.len() - k,
    {
        proof {
            assert(all.skip(k as int)[0] == all[k as int]);
            assert(all.skip(k as int).drop_first() =~= all.skip(k + 1));
            assert(all[k as int] == segs@[k as int]@);
        }
        let ps = split_on_char(&segs[k], '=');
        if ps.len() != 2 {
            proof {
                assert(parse_pair(all[k as int]) is None);
            }
            return Err(FormError::MalformedForm);
        }
        proof {
            assert(views_of(ps@)[0] == ps@[0]@);
            assert(views_of(ps@)[1] == ps@[1]@);
        }
        let value_bytes = chars_to_utf8(&ps[1]);
        let decoded = percent_decode(&value_bytes);
        match decoded {
            None => {
                proof {
                    assert(parse_pair(all[k as int]) is None);
                }
                return Err(FormError::MalformedForm);
            },
            Some(raw) => {
                let text = sjis_decode(&raw);
                let key_s = chars_to_string(&ps[0]);
                let ghost done0 = Seq::new(pairs@.len(), |i: int| (pairs@[i].0@, pairs@[i].1@));
                let ghost pr = (ps@[0]@, sjis_decode_of(raw@));
                pairs.push((key_s, text));
                proof {
                    assert(parse_pair(all[k as int]) == Some(pr));
                    assert(Seq::new(pairs@.len(), |i: int| (pairs@[i].0@, pairs@[i].1@)) =~= done0
                        + seq![pr]);
                    match parse_pairs(all.skip(k + 1)) {
                        Some(t) => {
                            assert(done0 + (seq![pr] + t) =~= (done0 + seq![pr]) + t);
                        },
                        None => {},
                    }
                }
                k += 1;
            },
        }
    }
    proof {
        assert(all.skip(all.len() as int) =~= Seq::<Seq<char>>::empty());
    }
    let m = FieldMap { pairs };
    proof {
        assert(m@ =~= Seq::new(m.pairs@.len(), |i: int| (m.pairs@[i].0@, m.pairs@[i].1@)));
        match parse_pairs(all) {
            Some(t) => {
                assert(m@ + Seq::<(Seq<char>, Seq<char>)>::empty() =~= m@);
            },
            None => {},
        }
    }
    Ok(m)
}

} // verus!
