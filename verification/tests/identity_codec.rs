use base64::Engine;
use sha1::Digest;

use sukesuke_bbs_core::codec::{percent_encode, shift_jis_url_encodeded_body_to_vec};
use sukesuke_bbs_core::errors::{backend_error_status, FormError};
use sukesuke_bbs_core::form::{extract_forms, resolve_user_token};
use sukesuke_bbs_core::identity::{
    calculate_author_id, calculate_trip, extract_display_name, extract_mail_and_cap, TokenRemover,
};

fn sjis_bytes(text: &str) -> Vec<u8> {
    encoding_rs::SHIFT_JIS.encode(text).0.into_owned()
}

#[test]
fn codec_decodes_percent_plus_and_verbatim_bytes() {
    let map = shift_jis_url_encodeded_body_to_vec("a=x+y&b=%41%42&c=plain").unwrap();
    assert_eq!(map.get("a").unwrap(), "x y");
    assert_eq!(map.get("b").unwrap(), "AB");
    assert_eq!(map.get("c").unwrap(), "plain");
    assert!(map.get("d").is_none());
}

#[test]
fn codec_reads_percent_escapes_as_shift_jis_bytes() {
    let word = "\u{66f8}\u{304d}\u{8fbc}\u{3080}";
    let encoded = percent_encode(&sjis_bytes(word));
    let body = format!("submit={}", encoded);
    let map = shift_jis_url_encodeded_body_to_vec(&body).unwrap();
    assert_eq!(map.get("submit").unwrap(), word);
}

#[test]
fn codec_round_trips_a_known_field_map() {
    let fields = [("FROM", "nanashi"), ("MESSAGE", "\u{3053}\u{3093}\u{306b}\u{3061}\u{306f}"), ("bbs", "test")];
    let body = fields
        .iter()
        .map(|(k, v)| format!("{}={}", k, percent_encode(&sjis_bytes(v))))
        .collect::<Vec<_>>()
        .join("&");
    let map = shift_jis_url_encodeded_body_to_vec(&body).unwrap();
    for (k, v) in fields {
        assert_eq!(map.get(k).unwrap(), v);
    }
}

#[test]
fn codec_rejects_malformed_pairs_and_escapes() {
    assert_eq!(
        shift_jis_url_encodeded_body_to_vec("novalue").unwrap_err(),
        FormError::MalformedForm
    );
    assert_eq!(
        shift_jis_url_encodeded_body_to_vec("a=b=c").unwrap_err(),
        FormError::MalformedForm
    );
    assert_eq!(
        shift_jis_url_encodeded_body_to_vec("a=%zz").unwrap_err(),
        FormError::MalformedForm
    );
}

#[test]
fn codec_swallows_a_truncated_escape() {
    let map = shift_jis_url_encodeded_body_to_vec("a=xy%4").unwrap();
    assert_eq!(map.get("a").unwrap(), "xy");
}

#[test]
fn codec_lets_the_last_duplicate_win() {
    let map = shift_jis_url_encodeded_body_to_vec("a=1&a=2").unwrap();
    assert_eq!(map.get("a").unwrap(), "2");
}

#[test]
fn trip_is_deterministic() {
    assert_eq!(calculate_trip("secret"), calculate_trip("secret"));
    assert_eq!(calculate_trip("longerthan12bytes!"), calculate_trip("longerthan12bytes!"));
}

#[test]
fn long_trip_matches_the_digest_scheme() {
    let input = "averylongtripkey";
    let bytes = sjis_bytes(input);
    assert!(bytes.len() >= 12);
    let digest = sha1::Sha1::digest(&bytes);
    let expected: String = base64::engine::general_purpose::STANDARD.encode(digest)[0..12]
        .replace('+', ".");
    assert_eq!(calculate_trip(input), expected);
}

#[test]
fn short_trip_matches_the_crypt_scheme() {
    let input = "key";
    let bytes = sjis_bytes(input);
    assert!(bytes.len() < 12);
    let mut salt = Vec::from(&bytes[1..=2]);
    salt.push(0x48);
    salt.push(0x2e);
    let salt: Vec<u8> = salt
        .into_iter()
        .map(|x| match x {
            0x3a..=0x40 => x + 7,
            0x5b..=0x60 => x + 6,
            46..=122 => x,
            _ => 0x2e,
        })
        .collect();
    let salt = std::str::from_utf8(&salt).unwrap().to_string();
    let expected = pwhash::unix::crypt(bytes.as_slice(), &salt).unwrap()[3..].to_string();
    assert_eq!(calculate_trip(input), expected);
}

#[test]
fn trip_length_follows_the_scheme() {
    assert_eq!(calculate_trip("ab").chars().count(), 10);
    assert_eq!(calculate_trip("twelve bytes or more").chars().count(), 12);
}

// 2024-01-01 00:00:00 UTC, which is 09:00 JST on the same calendar day.
const NEW_YEAR_2024_UTC_MILLIS: u64 = 1_704_067_200_000;

#[test]
fn author_id_ignores_the_time_of_day() {
    let morning = NEW_YEAR_2024_UTC_MILLIS;
    let evening = NEW_YEAR_2024_UTC_MILLIS + 14 * 3_600_000 + 59 * 60_000;
    assert_eq!(
        calculate_author_id("198.51.100.7", morning),
        calculate_author_id("198.51.100.7", evening)
    );
}

#[test]
fn author_id_rotates_with_the_jst_calendar_day() {
    let before_midnight = NEW_YEAR_2024_UTC_MILLIS + 14 * 3_600_000 + 59 * 60_000;
    let after_midnight = NEW_YEAR_2024_UTC_MILLIS + 15 * 3_600_000;
    assert_ne!(
        calculate_author_id("198.51.100.7", before_midnight),
        calculate_author_id("198.51.100.7", after_midnight)
    );
}

#[test]
fn author_id_has_nine_characters_and_tracks_the_address() {
    let a = calculate_author_id("198.51.100.7", NEW_YEAR_2024_UTC_MILLIS);
    let b = calculate_author_id("198.51.100.8", NEW_YEAR_2024_UTC_MILLIS);
    assert_eq!(a.chars().count(), 9);
    assert_ne!(a, b);
}

#[test]
fn author_id_is_the_truncated_trip_of_address_and_date() {
    let trip = calculate_trip("198.51.100.72024-01-01");
    let expected: String = trip.chars().take(9).collect();
    assert_eq!(calculate_author_id("198.51.100.7", NEW_YEAR_2024_UTC_MILLIS), expected);
}

#[test]
fn percent_encoding_is_exact() {
    assert_eq!(percent_encode(&b"a b".to_vec()), "a%20b");
    assert_eq!(percent_encode(&b"AZaz09".to_vec()), "AZaz09");
    assert_eq!(percent_encode(&vec![0x25, 0x2b, 0xff]), "%25%2B%FF");
}

#[test]
fn token_remover_blanks_long_lowercase_runs() {
    let remover = TokenRemover::new();
    let token = "a".repeat(30) + "x";
    assert_eq!(remover.remove(token), "");
    assert_eq!(remover.remove("a".repeat(29)), "a".repeat(29));
    assert_eq!(remover.remove("A".repeat(40)), "A".repeat(40));
    assert_eq!(remover.remove("short".to_string()), "short");
}

#[test]
fn display_name_neutralizes_trip_markers() {
    assert_eq!(extract_display_name("no\u{25c6}de"), "no\u{25c7}de");
    assert_eq!(extract_display_name("a\u{2605}b"), "a\u{2606}b");
    // A `#` in the raw field always selects the trip path, so the numeric
    // marker spellings reach the bare-name replacement only hypothetically.
    assert_eq!(
        extract_display_name("a&#9670;b"),
        format!("a&\u{25c6}{}", calculate_trip("9670;b"))
    );
}

#[test]
fn trip_keys_have_their_diamonds_neutralized_before_hashing() {
    assert_eq!(
        extract_display_name("p#s\u{25c6}t"),
        format!("p\u{25c6}{}", calculate_trip("s\u{25c7}t"))
    );
}

#[test]
fn display_name_with_key_carries_a_trip() {
    let name = extract_display_name("poster#secret");
    let trip = calculate_trip("secret");
    assert_eq!(name, format!("poster\u{25c6}{}", trip));
}

#[test]
fn mail_splits_off_the_cap() {
    let (mail, cap) = extract_mail_and_cap("sage#word");
    assert_eq!(mail, "sage");
    assert_eq!(cap.unwrap(), "word");
    let (mail, cap) = extract_mail_and_cap("sage");
    assert_eq!(mail, "sage");
    assert!(cap.is_none());
}

fn reply_body(message: &str, key: &str) -> Vec<u8> {
    let submit = percent_encode(&sjis_bytes("\u{66f8}\u{304d}\u{8fbc}\u{3080}"));
    let message = percent_encode(&sjis_bytes(message));
    format!(
        "submit={submit}&mail=&FROM=nanashi&MESSAGE={message}&bbs=test&key={key}"
    )
    .into_bytes()
}

#[test]
fn a_reply_submission_becomes_a_response_form() {
    let form = extract_forms(&reply_body("hello<world>", "42")).unwrap();
    assert!(!form.is_thread);
    assert_eq!(form.body, "hello&lt;world&gt;");
    assert_eq!(form.name, "nanashi");
    assert_eq!(form.mail, "");
    assert_eq!(form.board_key, "test");
    assert_eq!(form.thread_id, Some(42));
    assert!(form.cap.is_none());
    assert!(form.subject.is_none());
}

#[test]
fn a_new_thread_submission_carries_its_sanitized_title() {
    let submit = percent_encode(&sjis_bytes(
        "\u{65b0}\u{898f}\u{30b9}\u{30ec}\u{30c3}\u{30c9}\u{4f5c}\u{6210}",
    ));
    let body = format!(
        "submit={submit}&mail=&FROM=op&MESSAGE=first&bbs=test&subject=t&#12"
    );
    // `&` splits fields, so the stray reference opens a field of its own and
    // the body is malformed; escape it instead.
    assert_eq!(
        extract_forms(&body.into_bytes()).unwrap_err(),
        FormError::MalformedForm
    );
    let title = percent_encode(&sjis_bytes("a&#12"));
    let body = format!(
        "submit={submit}&mail=&FROM=op&MESSAGE=first&bbs=test&subject={title}"
    );
    let form = extract_forms(&body.into_bytes()).unwrap();
    assert!(form.is_thread);
    assert_eq!(form.subject.unwrap(), "a");
    assert!(form.thread_id.is_none());
}

#[test]
fn unknown_submit_actions_are_rejected() {
    let body = b"submit=nonsense&mail=&FROM=a&MESSAGE=b&bbs=c".to_vec();
    assert_eq!(extract_forms(&body).unwrap_err(), FormError::UnrecognizedSubmitAction);
}

#[test]
fn missing_fields_and_bad_keys_are_rejected() {
    let submit = percent_encode(&sjis_bytes("\u{66f8}\u{304d}\u{8fbc}\u{3080}"));
    let body = format!("submit={submit}&mail=&FROM=a&bbs=c&key=1").into_bytes();
    assert_eq!(extract_forms(&body).unwrap_err(), FormError::MissingField);
    let body = format!("submit={submit}&mail=&FROM=a&MESSAGE=b&bbs=c&key=abc").into_bytes();
    assert_eq!(extract_forms(&body).unwrap_err(), FormError::InvalidThreadKey);
    let body = format!("submit={submit}&mail=&FROM=a&MESSAGE=b&bbs=c").into_bytes();
    assert_eq!(extract_forms(&body).unwrap_err(), FormError::MissingField);
}

#[test]
fn the_cap_rides_the_mail_field_into_the_form() {
    let submit = percent_encode(&sjis_bytes("\u{66f8}\u{304d}\u{8fbc}\u{3080}"));
    let body = format!("submit={submit}&mail=sage%23tok&FROM=a&MESSAGE=b&bbs=c&key=1").into_bytes();
    let form = extract_forms(&body).unwrap();
    assert_eq!(form.mail, "sage");
    assert_eq!(form.cap.unwrap(), "tok");
}

#[test]
fn token_resolution_prefers_the_cookie() {
    let (t, from_cookie) = resolve_user_token(Some("c".into()), Some("x".into()));
    assert_eq!(t.unwrap(), "c");
    assert!(from_cookie);
    let (t, from_cookie) = resolve_user_token(None, Some("x".into()));
    assert_eq!(t.unwrap(), "x");
    assert!(!from_cookie);
    let (t, from_cookie) = resolve_user_token(None, None);
    assert!(t.is_none());
    assert!(!from_cookie);
}

#[test]
fn backend_errors_map_to_not_found_or_server_error() {
    assert_eq!(backend_error_status("Error: No results found in get thread"), 404);
    assert_eq!(backend_error_status("Error: unknown DB error"), 500);
}
