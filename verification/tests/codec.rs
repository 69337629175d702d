use path_to_unicode_filename::Error;
use path_to_unicode_filename::to_filename;
use path_to_unicode_filename::to_filename_from_str;
use path_to_unicode_filename::to_path;
use path_to_unicode_filename::to_path_from_str;

use ucd::Codepoint;
use ucd::tables::misc::EastAsianWidth;

fn assert_explicit_width(c: char) {
    let w = c.east_asian_width();
    assert!(
        w == EastAsianWidth::Narrow || w == EastAsianWidth::Wide || w == EastAsianWidth::HalfWidth
            || w == EastAsianWidth::FullWidth
    );
}

#[test]
fn check_chars() {
    let escape_target_chars = "\0\\/:*?\"<>|🍎🐧💠";
    let escaped_chars = "〇＼／：＊？＂＜＞｜🍏🐤🚪";
    assert_eq!(
        escape_target_chars.chars().collect::<Vec<_>>().len(),
        escaped_chars.chars().collect::<Vec<_>>().len()
    );
    for c in escaped_chars.chars() {
        assert_explicit_width(c);
    }

    assert_explicit_width('🍎');
    assert_explicit_width('🐧');
    assert_explicit_width('💠');

    assert_explicit_width('🏠');
    assert_explicit_width('🎵');
    assert_explicit_width('💾');
    assert_explicit_width('🔝');
    assert_explicit_width('📄');
    assert_explicit_width('⏬');
    assert_explicit_width('🎨');
    assert_explicit_width('🎥');
    assert_explicit_width('🥞');
}

#[test]
fn it_works() {
    let pairs = [
        ("/", "／"),
        ("🍎", "🍏"),
        ("/tmp", "／tmp"),
        ("/media/disk001/file.txt", "🐧🥞disk001／file.txt"),
        ("C:\\file.txt", "💠🥞C＼file.txt"),
        ("C:\\Users\\alice\\file.txt", "💠🏠alice＼file.txt"),
        ("C:\\Users\\alice\\Music\\file.mp3", "💠🎵alice＼file.mp3"),
        ("/Users/alice/Library/Application Support", "🍎💾alice"),
        ("/home/alice/Desktop/", "🐧🔝alice／"),
        ("/home/alice/Documents/file.doc", "🐧📄alice／file.doc"),
        ("/Users/alice/Downloads/file.txt", "🍎⏬alice／file.txt"),
        ("C:\\Users\\alice\\Pictures\\file.jpg", "💠🎨alice＼file.jpg"),
        ("/home/alice/Videos/file.mp4", "🐧🎥alice／file.mp4"),
        ("/Volumes/disk001/file.txt", "🍎🥞disk001／file.txt"),
        ("platform_icon_🍎_test", "platform_icon_🍏_test"),
        ("platform_icon_🐧_test", "platform_icon_🐤_test"),
        ("platform_icon_💠_test", "platform_icon_🚪_test"),
        ("all_escape_targets_\0\\/:*?\"<>|🍎🐧💠_test", "all_escape_targets_〇＼／：＊？＂＜＞｜🍏🐤🚪_test"),
        (
            "all_escape_escaped_chars_〇＼／：＊？＂＜＞｜🍏🐤🚪_test",
            "all_escape_escaped_chars_〇〇＼＼／／：：＊＊？？＂＂＜＜＞＞｜｜🍏🍏🐤🐤🚪🚪_test",
        ),
        ("/Volumes/disk🍎001/file.txt", "🍎🥞disk🍏001／file.txt"),
        ("/Volumes/disk🐤001/file.txt", "🍎🥞disk🐤🐤001／file.txt"),
    ];

    for (path, filename) in pairs {
        assert_eq!(to_path_from_str(filename).unwrap(), path);
        assert_eq!(to_filename_from_str(path), filename);
    }
}

#[test]
fn parse_error() {
    assert_eq!(
        to_path_from_str("🍎invalid"),
        Err(Error::ParseError("invalid".to_string()))
    );
}

#[test]
fn parse_error_in_unix() {
    let bad = [0xc3u8, 0x28u8];
    assert_eq!(
        to_path(&bad),
        Err(Error::CouldntEncodeToUtf8(vec![0xc3u8, 0x28u8]))
    );
    assert_eq!(
        to_filename(&bad),
        Err(Error::CouldntEncodeToUtf8(vec![0xc3u8, 0x28u8]))
    );
}

#[test]
fn empty_input() {
    assert_eq!(to_filename_from_str(""), "");
    assert_eq!(to_path_from_str("").unwrap(), "");
}

#[test]
fn marker_without_root() {
    assert_eq!(to_path_from_str("🐧"), Err(Error::ParseError("".to_string())));
    assert_eq!(to_path_from_str("💠x"), Err(Error::ParseError("x".to_string())));
}

#[test]
fn non_alphabetic_drive_letter_stays_text() {
    assert_eq!(to_filename_from_str("1:\\x"), "1：＼x");
    assert_eq!(to_path_from_str("1：＼x").unwrap(), "1:\\x");
}

#[test]
fn byte_level_round_trip() {
    assert_eq!(
        to_filename("/media/disk001/file.txt".as_bytes()).unwrap(),
        "🐧🥞disk001／file.txt"
    );
    assert_eq!(
        to_path("🐧🥞disk001／file.txt".as_bytes()).unwrap(),
        "/media/disk001/file.txt"
    );
}

#[test]
fn error_kinds_are_distinct() {
    assert_ne!(
        Error::IncompleteStream,
        Error::ParseError("".to_string())
    );
    assert_ne!(
        Error::IncompleteStream,
        Error::CouldntEncodeToUtf8(Vec::new())
    );
    assert!(matches!(Error::IncompleteStream, Error::IncompleteStream));
}

#[test]
fn adjacent_separators_collapse() {
    // Two adjacent separators escape to a doubled replacement character,
    // which the greedy decoder then reads as a self-escape; inputs with a
    // reserved character directly followed by the same character or its
    // replacement are outside the round-trip guarantee.
    assert_eq!(to_filename_from_str("//"), "／／");
    assert_eq!(to_path_from_str("／／").unwrap(), "／");
}

#[test]
fn home_round_trip_scenarios() {
    let paths = [
        "/Users/bob",
        "/Users/bob/song.flac",
        "/home/carol/Music",
        "/home/carol/Music/a.ogg",
        "C:\\Users\\dave\\Downloads\\setup.exe",
        "/Users/erin/Library/Application Support/app/state.db",
    ];
    for path in paths {
        let encoded = to_filename_from_str(path);
        assert_eq!(to_path_from_str(&encoded).unwrap(), path);
    }
}

#[test]
fn escaped_separator_in_user_name() {
    let encoded = to_filename_from_str("/Users/alice/Documents/a:b.txt");
    assert_eq!(encoded, "🍎📄alice／a：b.txt");
    assert_eq!(
        to_path_from_str("🍎📄alice／a：b.txt").unwrap(),
        "/Users/alice/Documents/a:b.txt"
    );
}
