//! The form interpreter: the decoded field map becomes a typed posting
//! submission — a new thread or a new reply — with every text field
//! sanitized and the poster's identity extracted.
use vstd::prelude::*;

use crate::codec::{lookup, parse_form_text, shift_jis_url_encodeded_body_to_vec};
use crate::errors::FormError;
use crate::identity::{cap_of, display_name_of, extract_display_name, extract_mail_and_cap, mail_of};
use crate::outside::{sjis_decode, sjis_decode_of};
use crate::sanitize::{sanitize, sanitize_text, sanitize_thread_name, sanitize_title_text};
use crate::strutil::str_eq;

verus! {

/// A typed posting submission, as read from the decoded fields.
#[derive(Debug, Clone)]
pub struct BbsCgiForm {
    /// The sanitized title; only a new thread carries one.
    pub subject: Option<String>,
    /// The display name, trip applied.
    pub name: String,
    /// The sanitized mail field before any `#`.
    pub mail: String,
    /// The sanitized message body.
    pub body: String,
    /// The board named by the submission, as sent.
    pub board_key: String,
    /// Whether the submission opens a new thread.
    pub is_thread: bool,
    /// The reply's target thread; only a reply carries one.
    pub thread_id: Option<i64>,
    /// The cap secret from the mail field, when one was sent.
    pub cap: Option<String>,
}

/// All characters are decimal digits.
pub open spec fn all_digits(s: Seq<char>) -> bool {
    forall|j: int| 0 <= j < s.len() ==> #[trigger] crate::sanitize::is_dec_digit(s[j])
}

/// The number the digit text denotes.
pub open spec fn dec_value(s: Seq<char>) -> int
    decreases s.len(),
{
    if s.len() == 0 {
        0
    } else {
        dec_value(s.drop_last()) * 10 + (s.last() as u32 - 48)
    }
}

/// The digits of a signed number text: everything after one optional sign.
pub open spec fn digits_part(s: Seq<char>) -> Seq<char> {
    if s.len() > 0 && (s[0] == '-' || s[0] == '+') {
        s.drop_first()
    } else {
        s
    }
}

/// Whether a number text opens with a minus sign.
pub open spec fn is_negative_text(s: Seq<char>) -> bool {
    s.len() > 0 && s[0] == '-'
}

/// The 64-bit integer a text denotes: an optional sign, then at least one
/// digit, the value within range — or nothing.
pub open spec fn parse_i64_spec(s: Seq<char>) -> Option<int> {
    let ds = digits_part(s);
    if ds.len() == 0 || !all_digits(ds) {
        None
    } else {
        let v = if is_negative_text(s) {
            -dec_value(ds)
        } else {
            dec_value(ds)
        };
        if v < i64::MIN || v > i64::MAX {
            None
        } else {
            Some(v)
        }
    }
}

proof fn lemma_dec_value_bounds(s: Seq<char>)
    requires
        all_digits(s),
    ensures
        dec_value(s) >= 0,
        forall|k: int| 0 <= k <= s.len() ==> dec_value(s) >= dec_value(#[trigger] s.take(k)),
    decreases s.len(),
{
    if s.len() > 0 {
        assert(all_digits(s.drop_last()));
        lemma_dec_value_bounds(s.drop_last());
        assert(crate::sanitize::is_dec_digit(s.last()));
        assert forall|k: int| 0 <= k <= s.len() implies dec_value(s) >= dec_value(s.take(k)) by {
            if k == s.len() {
                assert(s.take(k) =~= s);
            } else {
                assert(s.take(k) =~= s.drop_last().take(k));
                assert(dec_value(s) == dec_value(s.drop_last()) * 10 + (s.last() as u32 - 48));
            }
        }
    } else {
        assert forall|k: int| 0 <= k <= s.len() implies dec_value(s) >= dec_value(s.take(k)) by {
            assert(s.take(k) =~= s);
        }
    }
}

/// Parse a signed 64-bit integer as the thread key is sent.
pub fn parse_i64(v: &Vec<char>) -> (r: Option<i64>)
    ensures
        match r {
            Some(n) => parse_i64_spec(v@) == Some(n as int),
            None => parse_i64_spec(v@) is None,
        },
{
    let mut start: usize = 0;
    let mut neg = false;
    if v.len() > 0 && v[0] == '-' {
        neg = true;
        start = 1;
    } else if v.len() > 0 && v[0] == '+' {
        start = 1;
    }
    let ghost ds = digits_part(v@);
    proof {
        assert(v@.skip(start as int) =~= ds);
        assert(neg == is_negative_text(v@));
    }
    if v.len() == start {
        return None;
    }
    let mut m: u128 = 0;
    let mut i: usize = start;
    while i < v.len()
        invariant
            start <= i <= v@.len(),
            ds == v@.skip(start as int),
            ds == digits_part(v@),
            neg == is_negative_text(v@),
            ds.len() >= 1,
            ds.len() == v@.len() - start,
            all_digits(ds.take(i - start)),
            m == dec_value(ds.take(i - start)),
            m <= 0xFFFF_FFFF_FFFF_FFFFu128 * 10 + 9,
        decreases v@.len() - i,
    {
        let c = v[i];
        let u = c as u32;
        proof {
            assert(ds[i - start] == v@[i as int]);
        }
        if !(48 <= u && u <= 57) {
            proof {
                assert(!crate::sanitize::is_dec_digit(ds[i - start]));
                assert(!all_digits(ds));
            }
            return None;
        }
        if m > 0xFFFF_FFFF_FFFF_FFFF {
            proof {
                assert(all_digits(ds.take(i - start)));
                if all_digits(ds) {
                    lemma_dec_value_bounds(ds);
                    assert(dec_value(ds) >= dec_value(ds.take(i - start)));
                    assert(dec_value(ds) > i64::MAX);
                    assert(-dec_value(ds) < i64::MIN);
                }
            }
            return None;
        }
        m = m * 10 + ((u - 48) as u128);
        proof {
            assert(ds.take(i + 1 - start) =~= ds.take(i - start).push(ds[i - start]));
            assert(ds.take(i + 1 - start).drop_last() =~= ds.take(i - start));
        }
        i += 1;
    }
    proof {
        assert(ds.take(v@.len() - start) =~= ds);
    }
    if neg {
        if m > 0x8000_0000_0000_0000u128 {
            return None;
        }
        if m == 0x8000_0000_0000_0000u128 {
            return Some(i64::MIN);
        }
        Some(-((m as u64) as i64))
    } else {
        if m > 0x7FFF_FFFF_FFFF_FFFFu128 {
            return None;
        }
        Some((m as u64) as i64)
    }
}

/// The submit value that opens a new thread.
pub open spec fn submit_new_thread() -> Seq<char> {
    "\u{65b0}\u{898f}\u{30b9}\u{30ec}\u{30c3}\u{30c9}\u{4f5c}\u{6210}"@
}

/// The submit value that posts a reply.
pub open spec fn submit_reply() -> Seq<char> {
    "\u{66f8}\u{304d}\u{8fbc}\u{3080}"@
}

/// The first error the field map earns under the interpreter's reading
/// order, or nothing when it is a well-formed submission.
pub open spec fn form_check(m: Seq<(Seq<char>, Seq<char>)>) -> Option<FormError> {
    match lookup(m, "submit"@) {
        None => Some(FormError::MissingField),
        Some(submit) => {
            if submit != submit_reply() && submit != submit_new_thread() {
                Some(FormError::UnrecognizedSubmitAction)
            } else {
                let is_thread = submit == submit_new_thread();
                if lookup(m, "mail"@) is None {
                    Some(FormError::MissingField)
                } else if is_thread && lookup(m, "subject"@) is None {
                    Some(FormError::MissingField)
                } else if lookup(m, "FROM"@) is None {
                    Some(FormError::MissingField)
                } else if lookup(m, "MESSAGE"@) is None {
                    Some(FormError::MissingField)
                } else if lookup(m, "bbs"@) is None {
                    Some(FormError::MissingField)
                } else if !is_thread && lookup(m, "key"@) is None {
                    Some(FormError::MissingField)
                } else if !is_thread && parse_i64_spec(lookup(m, "key"@).unwrap()) is None {
                    Some(FormError::InvalidThreadKey)
                } else {
                    None
                }
            }
        },
    }
}

/// What a well-formed submission's typed form holds, field by field.
pub open spec fn form_matches(f: BbsCgiForm, m: Seq<(Seq<char>, Seq<char>)>) -> bool {
    let is_thread = lookup(m, "submit"@) == Some(submit_new_thread());
    &&& f.is_thread == is_thread
    &&& match f.subject {
        Some(s) => is_thread && s@ == sanitize_title_text(lookup(m, "subject"@).unwrap()),
        None => !is_thread,
    }
    &&& f.name@ == display_name_of(lookup(m, "FROM"@).unwrap())
    &&& f.mail@ == mail_of(lookup(m, "mail"@).unwrap())
    &&& match f.cap {
        Some(c) => cap_of(lookup(m, "mail"@).unwrap()) == Some(c@),
        None => cap_of(lookup(m, "mail"@).unwrap()) is None,
    }
    &&& f.body@ == sanitize_text(lookup(m, "MESSAGE"@).unwrap())
    &&& f.board_key@ == lookup(m, "bbs"@).unwrap()
    &&& match f.thread_id {
        Some(k) => !is_thread && parse_i64_spec(lookup(m, "key"@).unwrap()) == Some(k as int),
        None => is_thread,
    }
}

/// Decode a raw Shift-JIS request body and interpret it as a posting
/// submission. Fails with `MalformedForm` when the body does not decode,
/// and otherwise exactly as the reading order of `form_check` says.
pub fn extract_forms(bytes: &Vec<u8>) -> (r: Result<BbsCgiForm, FormError>)
    ensures
        match parse_form_text(sjis_decode_of(bytes@)) {
            None => r matches Err(e) && e == FormError::MalformedForm,
            Some(m) => match form_check(m) {
                Some(err) => r matches Err(e) && e == err,
                None => r matches Ok(f) && form_matches(f, m),
            },
        },
{
    let data = sjis_decode(bytes);
    let decoded = shift_jis_url_encodeded_body_to_vec(data.as_str());
    let map = match decoded {
        Ok(map) => map,
        Err(e) => {
            return Err(e);
        },
    };
    let submit = match map.get("submit") {
        Some(s) => s,
        None => {
            return Err(FormError::MissingField);
        },
    };
    proof {
        reveal_strlit("\u{66f8}\u{304d}\u{8fbc}\u{3080}");
        reveal_strlit("\u{65b0}\u{898f}\u{30b9}\u{30ec}\u{30c3}\u{30c9}\u{4f5c}\u{6210}");
        assert(submit_reply().len() == 4);
        assert(submit_new_thread().len() == 8);
        assert(submit_reply() != submit_new_thread());
    }
    let is_thread = if str_eq(submit.as_str(), "\u{66f8}\u{304d}\u{8fbc}\u{3080}") {
        false
    } else if str_eq(
        submit.as_str(),
        "\u{65b0}\u{898f}\u{30b9}\u{30ec}\u{30c3}\u{30c9}\u{4f5c}\u{6210}",
    ) {
        true
    } else {
        return Err(FormError::UnrecognizedSubmitAction);
    };
    let mail_field = match map.get("mail") {
        Some(s) => s.clone(),
        None => {
            return Err(FormError::MissingField);
        },
    };
    let subject = if is_thread {
        match map.get("subject") {
            Some(s) => Some(sanitize_thread_name(s.as_str())),
            None => {
                return Err(FormError::MissingField);
            },
        }
    } else {
        None
    };
    let name_field = match map.get("FROM") {
        Some(s) => s.clone(),
        None => {
            return Err(FormError::MissingField);
        },
    };
    let message_field = match map.get("MESSAGE") {
        Some(s) => s.clone(),
        None => {
            return Err(FormError::MissingField);
        },
    };
    let board_key = match map.get("bbs") {
        Some(s) => s.clone(),
        None => {
            return Err(FormError::MissingField);
        },
    };
    let thread_id = if is_thread {
        None
    } else {
        match map.get("key") {
            Some(s) => {
                let kv = crate::strutil::str_to_chars(s.as_str());
                match parse_i64(&kv) {
                    Some(n) => Some(n),
                    None => {
                        return Err(FormError::InvalidThreadKey);
                    },
                }
            },
            None => {
                return Err(FormError::MissingField);
            },
        }
    };
    let (mail, cap) = extract_mail_and_cap(mail_field.as_str());
    let name = extract_display_name(name_field.as_str());
    let body = sanitize(message_field.as_str());
    Ok(
        BbsCgiForm {
            subject,
            name,
            mail,
            body,
            board_key,
            is_thread,
            thread_id,
            cap,
        },
    )
}

/// Build the thread-opening command from a new-thread form and the
/// caller-resolved stamp, author id, address and identity token; nothing
/// when the form is not a new-thread submission.
pub fn to_creating_thread(
    form: &BbsCgiForm,
    board_id: i32,
    date: String,
    author_id: String,
    ip_addr: String,
    user_hash: String,
) -> (r: Option<crate::dtos::CreatingThread>)
    ensures
        match r {
            Some(c) => {
                &&& form.is_thread
                &&& form.subject matches Some(s) && c.title == s
                &&& c.board_id == board_id
                &&& c.name == form.name
                &&& c.mail == form.mail
                &&& c.body == form.body
                &&& c.date == date
                &&& c.author_id == author_id
                &&& c.ip_addr == ip_addr
                &&& c.user_hash == user_hash
            },
            None => !form.is_thread || form.subject is None,
        },
{
    if !form.is_thread {
        return None;
    }
    match &form.subject {
        Some(title) => Some(
            crate::dtos::CreatingThread {
                board_id,
                title: title.clone(),
                name: form.name.clone(),
                mail: form.mail.clone(),
                body: form.body.clone(),
                date,
                author_id,
                ip_addr,
                user_hash,
            },
        ),
        None => None,
    }
}

/// Build the reply command from a reply form and the caller-resolved stamp,
/// author id, address and identity token; nothing when the form is not a
/// reply or carries no thread key.
pub fn to_creating_response(
    form: &BbsCgiForm,
    board_id: i32,
    date: String,
    author_id: String,
    ip_addr: String,
    user_hash: String,
) -> (r: Option<crate::dtos::CreatingResponse>)
    ensures
        match r {
            Some(c) => {
                &&& !form.is_thread
                &&& form.thread_id matches Some(k) && c.thread_key == k
                &&& c.board_id == board_id
                &&& c.name == form.name
                &&& c.mail == form.mail
                &&& c.body == form.body
                &&& c.date == date
                &&& c.author_id == author_id
                &&& c.ip_addr == ip_addr
                &&& c.user_hash == user_hash
            },
            None => form.is_thread || form.thread_id is None,
        },
{
    if form.is_thread {
        return None;
    }
    match form.thread_id {
        Some(k) => Some(
            crate::dtos::CreatingResponse {
                board_id,
                thread_key: k,
                name: form.name.clone(),
                mail: form.mail.clone(),
                body: form.body.clone(),
                date,
                author_id,
                ip_addr,
                user_hash,
            },
        ),
        None => None,
    }
}

/// Resolve which secret authenticates the poster: a session cookie wins and
/// marks the submission as cookie-borne; otherwise a cap from the mail
/// field; otherwise nothing.
pub fn resolve_user_token(cookie: Option<String>, cap: Option<String>) -> (r: (
    Option<String>,
    bool,
))
    ensures
        match cookie {
            Some(u) => r.0 == Some(u) && r.1 == true,
            None => r.0 == cap && r.1 == false,
        },
{
    match (cookie, cap) {
        (Some(u), _) => (Some(u), true),
        (None, Some(c)) => (Some(c), false),
        (None, None) => (None, false),
    }
}

} // verus!
