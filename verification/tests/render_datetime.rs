use sukesuke_bbs_core::datetime::{
    civil_from_day_number, convert_weekday_to_ja, get_current_date_time_string, jst_date_string,
};
use sukesuke_bbs_core::dtos::{Board, Res, Thread};
use sukesuke_bbs_core::render::{gen_dat, gen_mate_subject_txt, gen_setting_txt, gen_subject_txt};

fn thread(key: i64, title: &str, count: i32, author_id: &str) -> Thread {
    Thread {
        id: "t1".into(),
        thread_key: key,
        board_id: 1,
        title: title.into(),
        response_count: count,
        ip_address: "203.0.113.9".into(),
        user_id: "u1".into(),
        created_at: "2024-01-01".into(),
        update_unix_timestamp: 1_704_067_200,
        author_id: author_id.into(),
    }
}

fn res(name: &str, body: &str, author_id: &str, date_text: &str) -> Res {
    Res {
        id: "r1".into(),
        thread_id: "t1".into(),
        name: name.into(),
        mail: "".into(),
        body: body.into(),
        author_id: author_id.into(),
        date_text: date_text.into(),
        ip_address: "203.0.113.9".into(),
        user_id: "u1".into(),
        created_at: "2024-01-01".into(),
    }
}

#[test]
fn subject_txt_renders_one_line_per_thread() {
    let threads = [thread(100, "Hi", 3, "aaaa")];
    assert_eq!(gen_subject_txt(&threads), "100.dat<>Hi (3)\n");
    let threads = [thread(100, "Hi", 3, "aaaa"), thread(99, "Yo", 1, "bbbb")];
    assert_eq!(gen_subject_txt(&threads), "100.dat<>Hi (3)\n99.dat<>Yo (1)\n");
    assert_eq!(gen_subject_txt(&[]), "");
}

#[test]
fn mate_variant_adds_the_openers_author_id() {
    let threads = [thread(100, "Hi", 3, "abcd")];
    assert_eq!(gen_mate_subject_txt(&threads), "100.dat<>Hi [abcd\u{2605}] (3)\n");
}

#[test]
fn dat_puts_the_title_on_the_first_line_only() {
    let t = thread(100, "Title", 2, "opid");
    let rs = [
        res("alice", "first", "id1", "d1"),
        res("bob", "second", "id2", "d2"),
    ];
    assert_eq!(
        gen_dat(&t, &rs),
        "alice<><>d1 ID:id1<> first<>Title\nbob<><>d2 ID:id2<> second<>\n"
    );
}

#[test]
fn dat_falls_back_to_the_anonymous_name() {
    let t = thread(100, "T", 1, "opid");
    let rs = [res("", "hello", "id1", "d1")];
    assert_eq!(
        gen_dat(&t, &rs),
        "\u{30b9}\u{30b1}\u{30b9}\u{30b1}\u{306e}\u{540d}\u{7121}\u{3057}<><>d1 ID:id1<> hello<>T\n"
    );
}

#[test]
fn setting_txt_names_the_board() {
    let board = Board {
        id: 1,
        name: "board".into(),
        board_key: "test".into(),
        default_name: "x".into(),
    };
    assert_eq!(
        gen_setting_txt(&board),
        "BBS_TITLE=board\nBBS_TITLE_ORIG=board\nBBS_NONAME_NAME=\u{30b9}\u{30b1}\u{30b9}\u{30b1}\u{306e}\u{540d}\u{7121}\u{3057}"
    );
}

// 2024-01-01 00:00:00 UTC, which is 09:00 JST on Monday, January the first.
const NEW_YEAR_2024_UTC_MILLIS: u64 = 1_704_067_200_000;

#[test]
fn the_date_time_stamp_is_exact() {
    assert_eq!(
        get_current_date_time_string(NEW_YEAR_2024_UTC_MILLIS, false),
        "2024/01/01(Mon) 09:00:00.000"
    );
    assert_eq!(
        get_current_date_time_string(NEW_YEAR_2024_UTC_MILLIS, true),
        "2024/01/01(\u{6708}) 09:00:00.000"
    );
    let later = NEW_YEAR_2024_UTC_MILLIS + 13 * 3_600_000 + 5 * 60_000 + 6_000 + 789;
    assert_eq!(
        get_current_date_time_string(later, false),
        "2024/01/01(Mon) 22:05:06.789"
    );
}

#[test]
fn the_stamp_crosses_midnight_with_the_jst_clock() {
    let after = NEW_YEAR_2024_UTC_MILLIS + 15 * 3_600_000;
    assert_eq!(
        get_current_date_time_string(after, false),
        "2024/01/02(Tue) 00:00:00.000"
    );
}

#[test]
fn the_author_date_is_the_jst_calendar_date() {
    assert_eq!(jst_date_string(NEW_YEAR_2024_UTC_MILLIS), "2024-01-01");
    let leap_day = 1_709_164_800_000u64;
    assert_eq!(jst_date_string(leap_day), "2024-02-29");
}

#[test]
fn the_civil_calendar_is_right_on_known_days() {
    assert_eq!(civil_from_day_number(0), (1970, 1, 1));
    assert_eq!(civil_from_day_number(365), (1971, 1, 1));
    assert_eq!(civil_from_day_number(19723), (2024, 1, 1));
    assert_eq!(civil_from_day_number(19782), (2024, 2, 29));
    assert_eq!(civil_from_day_number(19783), (2024, 3, 1));
}

#[test]
fn weekdays_translate_to_japanese() {
    assert_eq!(convert_weekday_to_ja("Mon"), "\u{6708}");
    assert_eq!(convert_weekday_to_ja("Tue"), "\u{706b}");
    assert_eq!(convert_weekday_to_ja("Wed"), "\u{6c34}");
    assert_eq!(convert_weekday_to_ja("Thu"), "\u{6728}");
    assert_eq!(convert_weekday_to_ja("Fri"), "\u{91d1}");
    assert_eq!(convert_weekday_to_ja("Sat"), "\u{571f}");
    assert_eq!(convert_weekday_to_ja("Sun"), "\u{65e5}");
    assert_eq!(convert_weekday_to_ja("Xyz"), "Xyz");
}
