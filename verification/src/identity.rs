//! Deterministic pseudonymous identity codes: the trip, the daily-rotating
//! author id, and the extraction of name, trip key, mail and cap from the
//! raw form fields.
//!
//! A trip is derived from the Shift-JIS encoding of the secret. Twelve or
//! more bytes select the digest scheme: SHA-1, base64, the first twelve
//! characters, `+` replaced by `.`. Fewer select the legacy scheme: a salt
//! built from bytes one and two plus `H.`, transliterated into the crypt
//! alphabet, fed with the bytes to the traditional Unix crypt, keeping the
//! output from its fourth character on.
use vstd::prelude::*;

use crate::datetime::{date_string_of_day, jst_date_string, jst_day_number};
use crate::outside::{
    base64_of, base64_standard, crypt_of, in_crypt_alphabet, sha1_digest, sha1_of, sjis_encode,
    sjis_encode_of, unix_crypt,
};
use crate::sanitize::{sanitize, sanitize_text};
use crate::strutil::{chars_to_string, replace_chars, replace_seq, str_to_chars};

verus! {

use vstd::string::StrSliceExecFns;

/// The per-byte transliteration that makes a crypt salt: `:` through `@`
/// move up seven, `[` through `` ` `` move up six, the printable range stays,
/// anything else becomes a dot.
pub open spec fn trip_translit(b: u8) -> char {
    if 0x3a <= b && b <= 0x40 {
        ((b + 7) as u8) as char
    } else if 0x5b <= b && b <= 0x60 {
        ((b + 6) as u8) as char
    } else if 46 <= b && b <= 122 {
        b as char
    } else {
        '.'
    }
}

/// The salt fed to crypt for a short secret: bytes one and two when at
/// least three are present, then `H.`, each transliterated.
pub open spec fn trip_salt(bytes: Seq<u8>) -> Seq<char> {
    let src = (if bytes.len() >= 3 {
        seq![bytes[1], bytes[2]]
    } else {
        Seq::<u8>::empty()
    }) + seq![0x48u8, 0x2eu8];
    Seq::new(src.len(), |i: int| trip_translit(src[i]))
}

/// `+` becomes `.` in a digest-scheme trip.
pub open spec fn dot_for_plus(c: char) -> char {
    if c == '+' {
        '.'
    } else {
        c
    }
}

/// The trip for a secret text.
pub open spec fn trip_of_text(s: Seq<char>) -> Seq<char> {
    let bytes = sjis_encode_of(s);
    if bytes.len() >= 12 {
        Seq::new(12, |i: int| dot_for_plus(base64_of(sha1_of(bytes))[i]))
    } else {
        crypt_of(bytes, trip_salt(bytes)).skip(3)
    }
}

fn trip_translit_exec(b: u8) -> (c: char)
    ensures
        c == trip_translit(b),
{
    if 0x3a <= b && b <= 0x40 {
        (b + 7) as char
    } else if 0x5b <= b && b <= 0x60 {
        (b + 6) as char
    } else if 46 <= b && b <= 122 {
        b as char
    } else {
        '.'
    }
}

proof fn lemma_translit_in_alphabet(b: u8)
    ensures
        in_crypt_alphabet(trip_translit(b)),
{
}

/// Compute the trip of a secret. The result has twelve characters under the
/// digest scheme and ten under the legacy crypt scheme.
pub fn calculate_trip(target: &str) -> (r: String)
    ensures
        r@ == trip_of_text(target@),
        r@.len() == if sjis_encode_of(target@).len() >= 12 {
            12int
        } else {
            10int
        },
{
    let bytes = sjis_encode(target);
    if bytes.len() >= 12 {
        let digest = sha1_digest(&bytes);
        let b64 = base64_standard(&digest);
        let mut out: Vec<char> = Vec::new();
        let mut i: usize = 0;
        while i < 12
            invariant
                bytes@ == sjis_encode_of(target@),
                bytes@.len() >= 12,
                b64@ == base64_of(sha1_of(bytes@)),
                b64@.len() == 28,
                i <= 12,
                out@.len() == i,
                forall|j: int| 0 <= j < i ==> out@[j] == dot_for_plus(b64@[j]),
            decreases 12 - i,
        {
            let c = b64.as_str().get_char(i);
            if c == '+' {
                out.push('.');
            } else {
                out.push(c);
            }
            i += 1;
        }
        proof {
            assert(out@ =~= trip_of_text(target@));
        }
        chars_to_string(&out)
    } else {
        let mut salt_src: Vec<u8> = Vec::new();
        if bytes.len() >= 3 {
            salt_src.push(bytes[1]);
            salt_src.push(bytes[2]);
        }
        salt_src.push(0x48);
        salt_src.push(0x2e);
        let mut salt_chars: Vec<char> = Vec::new();
        let mut k: usize = 0;
        while k < salt_src.len()
            invariant
                k <= salt_src@.len(),
                salt_chars@.len() == k,
                forall|j: int| 0 <= j < k ==> salt_chars@[j] == trip_translit(salt_src@[j]),
            decreases salt_src@.len() - k,
        {
            salt_chars.push(trip_translit_exec(salt_src[k]));
            k += 1;
        }
        proof {
            assert(salt_chars@ =~= trip_salt(bytes@));
            lemma_translit_in_alphabet(salt_src@[0]);
            lemma_translit_in_alphabet(salt_src@[1]);
        }
        let salt = chars_to_string(&salt_chars);
        let crypted = unix_crypt(&bytes, salt.as_str());
        match crypted {
            Some(s) => {
                let mut out: Vec<char> = Vec::new();
                let mut i: usize = 3;
                while i < 13
                    invariant
                        s@.len() == 13,
                        3 <= i <= 13,
                        out@.len() == i - 3,
                        forall|j: int| 0 <= j < i - 3 ==> out@[j] == s@[3 + j],
                    decreases 13 - i,
                {
                    out.push(s.as_str().get_char(i));
                    i += 1;
                }
                proof {
                    assert(out@ =~= s@.skip(3));
                }
                chars_to_string(&out)
            },
            None => {
                proof {
                    assert(false);
                }
                String::new()
            },
        }
    }
}

/// The author id for a poster's address at an instant: the trip of the
/// address text followed by the JST calendar date, kept to nine characters.
pub open spec fn author_id_of(ip: Seq<char>, epoch_millis: int) -> Seq<char> {
    trip_of_text(ip + date_string_of_day(jst_day_number(epoch_millis))).take(9)
}

/// Compute the author id of an address at the instant given in epoch
/// milliseconds.
pub fn calculate_author_id(ip_addr: &str, epoch_millis: u64) -> (r: String)
    requires
        epoch_millis + 32400000 <= u64::MAX,
    ensures
        r@ == author_id_of(ip_addr@, epoch_millis as int),
{
    let date = jst_date_string(epoch_millis);
    let mut text = str_to_chars(ip_addr);
    let datev = str_to_chars(date.as_str());
    let mut k: usize = 0;
    while k < datev.len()
        invariant
            k <= datev@.len(),
            text@ == ip_addr@ + datev@.take(k as int),
        decreases datev@.len() - k,
    {
        text.push(datev[k]);
        proof {
            assert(datev@.take(k + 1) =~= datev@.take(k as int).push(datev@[k as int]));
            assert(ip_addr@ + datev@.take(k + 1) =~= (ip_addr@ + datev@.take(k as int)).push(
                datev@[k as int],
            ));
        }
        k += 1;
    }
    proof {
        assert(datev@.take(datev@.len() as int) =~= datev@);
    }
    let joined = chars_to_string(&text);
    let trip = calculate_trip(joined.as_str());
    let mut out: Vec<char> = Vec::new();
    let mut i: usize = 0;
    while i < 9
        invariant
            trip@ == trip_of_text(ip_addr@ + date_string_of_day(jst_day_number(
                epoch_millis as int,
            ))),
            trip@.len() == 12 || trip@.len() == 10,
            i <= 9,
            out@.len() == i,
            forall|j: int| 0 <= j < i ==> out@[j] == trip@[j],
        decreases 9 - i,
    {
        out.push(trip.as_str().get_char(i));
        i += 1;
    }
    proof {
        assert(out@ =~= author_id_of(ip_addr@, epoch_millis as int));
    }
    chars_to_string(&out)
}

/// The trip is a function of the Shift-JIS bytes of its input: two secrets
/// with the same encoding carry the same trip, so the code is deterministic
/// and pure.
pub proof fn lemma_trip_depends_on_bytes(a: Seq<char>, b: Seq<char>)
    requires
        sjis_encode_of(a) == sjis_encode_of(b),
    ensures
        trip_of_text(a) == trip_of_text(b),
{
}

/// The digest scheme never truncates its input: the trip of a long secret
/// is built from the digest of all its bytes, so two long secrets whose
/// digest encodings differ anywhere within the first twelve characters —
/// except on the pair that the dot replacement conflates — carry different
/// trips.
pub proof fn lemma_long_trips_differ(a: Seq<char>, b: Seq<char>, i: int)
    requires
        sjis_encode_of(a).len() >= 12,
        sjis_encode_of(b).len() >= 12,
        0 <= i < 12,
        dot_for_plus(base64_of(sha1_of(sjis_encode_of(a)))[i]) != dot_for_plus(
            base64_of(sha1_of(sjis_encode_of(b)))[i],
        ),
    ensures
        trip_of_text(a) != trip_of_text(b),
{
    assert(trip_of_text(a)[i] != trip_of_text(b)[i]);
}

/// The author id depends only on the address and the JST calendar day: two
/// instants of the same day give the same id, however their times of day
/// differ.
pub proof fn lemma_author_id_same_day(ip: Seq<char>, m1: int, m2: int)
    requires
        jst_day_number(m1) == jst_day_number(m2),
    ensures
        author_id_of(ip, m1) == author_id_of(ip, m2),
{
}

/// `s` with every `#` removed.
pub open spec fn remove_hash(s: Seq<char>) -> Seq<char>
    decreases s.len(),
{
    if s.len() == 0 {
        seq![]
    } else if s[0] == '#' {
        remove_hash(s.drop_first())
    } else {
        seq![s[0]] + remove_hash(s.drop_first())
    }
}

/// The characters before the first `#`, and — when one stands — everything
/// after it, joined with any further `#` dropped.
pub open spec fn hash_split(s: Seq<char>) -> (Seq<char>, Option<Seq<char>>)
    decreases s.len(),
{
    if s.len() == 0 {
        (seq![], None::<Seq<char>>)
    } else if s[0] == '#' {
        (seq![], Some(remove_hash(s.drop_first())))
    } else {
        let (h, t) = hash_split(s.drop_first());
        (seq![s[0]] + h, t)
    }
}

fn remove_hash_chars(v: &Vec<char>, from: usize) -> (out: Vec<char>)
    requires
        from <= v@.len(),
    ensures
        out@ == remove_hash(v@.skip(from as int)),
{
    let mut out: Vec<char> = Vec::new();
    let mut i: usize = from;
    while i < v.len()
        invariant
            from <= i <= v@.len(),
            remove_hash(v@.skip(from as int)) == out@ + remove_hash(v@.skip(i as int)),
        decreases v@.len() - i,
    {
        proof {
            assert(v@.skip(i as int)[0] == v@[i as int]);
            assert(v@.skip(i as int).drop_first() =~= v@.skip(i + 1));
        }
        if v[i] != '#' {
            out.push(v[i]);
        }
        i += 1;
    }
    proof {
        assert(v@.skip(v@.len() as int) =~= Seq::<char>::empty());
    }
    out
}

/// Split on the first `#`: the part before it, and — when one stands — the
/// parts after it joined together.
pub fn split_on_hash(v: &Vec<char>) -> (r: (Vec<char>, Option<Vec<char>>))
    ensures
        r.0@ == hash_split(v@).0,
        match r.1 {
            Some(t) => hash_split(v@).1 == Some(t@),
            None => hash_split(v@).1 is None,
        },
{
    let mut head: Vec<char> = Vec::new();
    let mut i: usize = 0;
    proof {
        assert(v@.skip(0) =~= v@);
    }
    while i < v.len()
        invariant
            i <= v@.len(),
            hash_split(v@).0 == head@ + hash_split(v@.skip(i as int)).0,
            hash_split(v@).1 == hash_split(v@.skip(i as int)).1,
        decreases v@.len() - i,
    {
        proof {
            assert(v@.skip(i as int)[0] == v@[i as int]);
            assert(v@.skip(i as int).drop_first() =~= v@.skip(i + 1));
        }
        if v[i] == '#' {
            let tail = remove_hash_chars(v, i + 1);
            proof {
                assert(hash_split(v@.skip(i as int)).0 =~= Seq::<char>::empty());
                assert(head@ + Seq::<char>::empty() =~= head@);
            }
            return (head, Some(tail));
        }
        head.push(v[i]);
        i += 1;
    }
    proof {
        assert(v@.skip(v@.len() as int) =~= Seq::<char>::empty());
        assert(head@ + Seq::<char>::empty() =~= head@);
    }
    (head, None)
}

/// The two spellings of the black-diamond trip marker become white, and in
/// a bare display name the star marker likewise.
pub open spec fn neutralize_name(s: Seq<char>) -> Seq<char> {
    replace_seq(
        replace_seq(
            replace_seq(
                replace_seq(s, seq!['\u{25c6}'], seq!['\u{25c7}']),
                seq!['&', '#', '9', '6', '7', '0', ';'],
                seq!['\u{25c7}'],
            ),
            seq!['\u{2605}'],
            seq!['\u{2606}'],
        ),
        seq!['&', '#', '9', '7', '3', '3', ';'],
        seq!['\u{2606}'],
    )
}

/// The neutralization applied to a trip key: only the diamond spellings.
pub open spec fn neutralize_trip_key(s: Seq<char>) -> Seq<char> {
    replace_seq(
        replace_seq(s, seq!['\u{25c6}'], seq!['\u{25c7}']),
        seq!['&', '#', '9', '6', '7', '0', ';'],
        seq!['\u{25c7}'],
    )
}

/// What a raw name field becomes on a post. Without a `#` the bare name is
/// blanked when it looks like a pasted token, sanitized, and its trip
/// markers neutralized. With one, the suffix is sanitized, its diamonds
/// neutralized and trip-computed, and the raw prefix carries `\u{25c6}` and
/// that trip.
pub open spec fn display_name_of(field: Seq<char>) -> Seq<char> {
    let (head, tail) = hash_split(field);
    match tail {
        None => neutralize_name(sanitize_text(token_removed(head))),
        Some(t) => head + seq!['\u{25c6}'] + trip_of_text(neutralize_trip_key(sanitize_text(t))),
    }
}

fn push_diamond_ref_pat(p: &mut Vec<char>)
    ensures
        final(p)@ == old(p)@ + seq!['&', '#', '9', '6', '7', '0', ';'],
{
    let ghost p0 = p@;
    p.push('&');
    p.push('#');
    p.push('9');
    p.push('6');
    p.push('7');
    p.push('0');
    p.push(';');
    proof {
        assert(p@ =~= p0 + seq!['&', '#', '9', '6', '7', '0', ';']);
    }
}

fn push_star_ref_pat(p: &mut Vec<char>)
    ensures
        final(p)@ == old(p)@ + seq!['&', '#', '9', '7', '3', '3', ';'],
{
    let ghost p0 = p@;
    p.push('&');
    p.push('#');
    p.push('9');
    p.push('7');
    p.push('3');
    p.push('3');
    p.push(';');
    proof {
        assert(p@ =~= p0 + seq!['&', '#', '9', '7', '3', '3', ';']);
    }
}

fn neutralize_trip_key_chars(v: &Vec<char>) -> (out: Vec<char>)
    ensures
        out@ == neutralize_trip_key(v@),
{
    let mut pat1: Vec<char> = Vec::new();
    pat1.push('\u{25c6}');
    let mut rep1: Vec<char> = Vec::new();
    rep1.push('\u{25c7}');
    let step1 = replace_chars(v, &pat1, &rep1);
    let mut pat2: Vec<char> = Vec::new();
    push_diamond_ref_pat(&mut pat2);
    let step2 = replace_chars(&step1, &pat2, &rep1);
    step2
}

fn neutralize_name_chars(v: &Vec<char>) -> (out: Vec<char>)
    ensures
        out@ == neutralize_name(v@),
{
    let step2 = neutralize_trip_key_chars(v);
    let mut pat3: Vec<char> = Vec::new();
    pat3.push('\u{2605}');
    let mut rep3: Vec<char> = Vec::new();
    rep3.push('\u{2606}');
    let step3 = replace_chars(&step2, &pat3, &rep3);
    let mut pat4: Vec<char> = Vec::new();
    push_star_ref_pat(&mut pat4);
    let step4 = replace_chars(&step3, &pat4, &rep3);
    step4
}

/// Turn a raw `FROM` field into the display name a post carries.
pub fn extract_display_name(field: &str) -> (r: String)
    ensures
        r@ == display_name_of(field@),
{
    let v = str_to_chars(field);
    let (head, tail) = split_on_hash(&v);
    match tail {
        Some(t) => {
            let ts = chars_to_string(&t);
            let sanitized = sanitize(ts.as_str());
            let sv = str_to_chars(sanitized.as_str());
            let key = neutralize_trip_key_chars(&sv);
            let key_s = chars_to_string(&key);
            let trip = calculate_trip(key_s.as_str());
            let trip_v = str_to_chars(trip.as_str());
            let mut out = head;
            out.push('\u{25c6}');
            let mut k: usize = 0;
            let ghost base = out@;
            while k < trip_v.len()
                invariant
                    k <= trip_v@.len(),
                    out@ == base + trip_v@.take(k as int),
                decreases trip_v@.len() - k,
            {
                out.push(trip_v[k]);
                proof {
                    assert(trip_v@.take(k + 1) =~= trip_v@.take(k as int).push(
                        trip_v@[k as int],
                    ));
                    assert(base + trip_v@.take(k + 1) =~= (base + trip_v@.take(k as int)).push(
                        trip_v@[k as int],
                    ));
                }
                k += 1;
            }
            proof {
                assert(trip_v@.take(trip_v@.len() as int) =~= trip_v@);
                assert(out@ =~= display_name_of(field@));
            }
            chars_to_string(&out)
        },
        None => {
            let head_s = chars_to_string(&head);
            let remover = TokenRemover::new();
            let removed = remover.remove(head_s);
            let sanitized = sanitize(removed.as_str());
            let sv = str_to_chars(sanitized.as_str());
            let out = neutralize_name_chars(&sv);
            chars_to_string(&out)
        },
    }
}

/// What a raw mail field becomes: the part before the first `#`, sanitized.
pub open spec fn mail_of(field: Seq<char>) -> Seq<char> {
    sanitize_text(hash_split(field).0)
}

/// The cap a raw mail field carries: the joined parts after the first `#`,
/// sanitized — or nothing when no `#` stands in the field.
pub open spec fn cap_of(field: Seq<char>) -> Option<Seq<char>> {
    match hash_split(field).1 {
        Some(t) => Some(sanitize_text(t)),
        None => None,
    }
}

/// Split a raw mail field into the mail and the optional cap secret.
pub fn extract_mail_and_cap(field: &str) -> (r: (String, Option<String>))
    ensures
        r.0@ == mail_of(field@),
        match r.1 {
            Some(c) => cap_of(field@) == Some(c@),
            None => cap_of(field@) is None,
        },
{
    let v = str_to_chars(field);
    let (head, tail) = split_on_hash(&v);
    let head_s = chars_to_string(&head);
    let mail = sanitize(head_s.as_str());
    match tail {
        Some(t) => {
            let ts = chars_to_string(&t);
            let cap = sanitize(ts.as_str());
            (mail, Some(cap))
        },
        None => (mail, None),
    }
}

/// A character of the long-run heuristic: lowercase letter or digit.
pub open spec fn is_token_char(c: char) -> bool {
    (97 <= c as u32 <= 122) || (48 <= c as u32 <= 57)
}

/// A run of thirty heuristic characters starts at `st`.
pub open spec fn token_run_at(s: Seq<char>, st: int) -> bool {
    0 <= st && st + 30 <= s.len() && (forall|j: int|
        st <= j < st + 30 ==> #[trigger] is_token_char(s[j]))
}

/// Thirty consecutive heuristic characters stand somewhere in the text.
pub open spec fn has_token_run(s: Seq<char>) -> bool {
    exists|st: int| #[trigger] token_run_at(s, st)
}

/// What the remover yields: a name of at least twenty bytes that holds a
/// thirty-character run is blanked as a pasted secret; any other name
/// passes through.
pub open spec fn token_removed(s: Seq<char>) -> Seq<char> {
    if vstd::utf8::encode_utf8(s).len() >= 20 && has_token_run(s) {
        Seq::<char>::empty()
    } else {
        s
    }
}

fn is_token_char_exec(c: char) -> (r: bool)
    ensures
        r == is_token_char(c),
{
    let u = c as u32;
    (97 <= u && u <= 122) || (48 <= u && u <= 57)
}

fn has_token_run_exec(v: &Vec<char>) -> (r: bool)
    ensures
        r == has_token_run(v@),
{
    let mut run: usize = 0;
    let mut i: usize = 0;
    while i < v.len()
        invariant
            i <= v@.len(),
            run <= i,
            run < 30,
            forall|j: int| i - run <= j < i ==> is_token_char(v@[j]),
            run < i ==> !is_token_char(v@[i - run - 1]),
            forall|st: int| st + 30 <= i ==> !(#[trigger] token_run_at(v@, st)),
        decreases v@.len() - i,
    {
        if is_token_char_exec(v[i]) {
            if run >= 29 {
                proof {
                    assert(token_run_at(v@, i - 29));
                }
                return true;
            }
            run += 1;
        } else {
            run = 0;
        }
        i += 1;
    }
    proof {
        assert forall|st: int| !token_run_at(v@, st) by {
            if token_run_at(v@, st) {
                assert(is_token_char(v@[st]));
            }
        }
        assert(!has_token_run(v@));
    }
    false
}

/// Blanks a display name that looks like an accidentally pasted secret or
/// token rather than a name.
pub struct TokenRemover {}

impl TokenRemover {
    /// A remover with the heuristic built in.
    pub fn new() -> (r: TokenRemover) {
        TokenRemover {  }
    }

    /// Blank `name` when it has at least twenty bytes and a thirty-character
    /// lowercase-alphanumeric run; keep it otherwise.
    pub fn remove(&self, name: String) -> (r: String)
        ensures
            r@ == token_removed(name@),
    {
        let v = str_to_chars(name.as_str());
        let byte_len = name.as_str().as_bytes().len();
        proof {
            assert(byte_len == vstd::utf8::encode_utf8(name@).len());
        }
        if byte_len >= 20 && has_token_run_exec(&v) {
            String::new()
        } else {
            name
        }
    }
}

} // verus!
