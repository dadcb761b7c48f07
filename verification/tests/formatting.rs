use sample_logger::text::{chars_of, replace, string_of};
use sample_logger::{
    ansi_to_colored, ansi_to_style, console_line, format_log_record_time, format_timestamp,
    LogRecord, TermColor, Timestamp,
};

fn instant() -> Timestamp {
    Timestamp { year: 2024, month: 3, day: 5, hour: 7, minute: 8, second: 9 }
}

fn record(msg: &str) -> LogRecord {
    LogRecord {
        color: "\x1b[32m",
        heading: "EVENT",
        msg: msg.to_string(),
        timestamp: instant(),
        lvl: 3,
    }
}

fn chars(s: &str) -> Vec<char> {
    s.chars().collect()
}

#[test]
fn standard_colours_in_hex_spelling() {
    assert_eq!(ansi_to_style("\x1b[30m"), TermColor::Black);
    assert_eq!(ansi_to_style("\x1b[31m"), TermColor::Red);
    assert_eq!(ansi_to_style("\x1b[32m"), TermColor::Green);
    assert_eq!(ansi_to_style("\x1b[33m"), TermColor::Yellow);
    assert_eq!(ansi_to_style("\x1b[34m"), TermColor::Blue);
    assert_eq!(ansi_to_style("\x1b[35m"), TermColor::Magenta);
    assert_eq!(ansi_to_style("\x1b[36m"), TermColor::Cyan);
    assert_eq!(ansi_to_style("\x1b[37m"), TermColor::White);
}

#[test]
fn bright_colours_in_hex_spelling() {
    assert_eq!(ansi_to_style("\x1b[90m"), TermColor::BrightBlack);
    assert_eq!(ansi_to_style("\x1b[91m"), TermColor::BrightRed);
    assert_eq!(ansi_to_style("\x1b[92m"), TermColor::BrightGreen);
    assert_eq!(ansi_to_style("\x1b[93m"), TermColor::BrightYellow);
    assert_eq!(ansi_to_style("\x1b[94m"), TermColor::BrightBlue);
    assert_eq!(ansi_to_style("\x1b[95m"), TermColor::BrightMagenta);
    assert_eq!(ansi_to_style("\x1b[96m"), TermColor::BrightCyan);
    assert_eq!(ansi_to_style("\x1b[97m"), TermColor::BrightWhite);
}

#[test]
fn colours_in_octal_spelling() {
    assert_eq!(ansi_to_style("\033[30m"), TermColor::Black);
    assert_eq!(ansi_to_style("\033[31m"), TermColor::Red);
    assert_eq!(ansi_to_style("\033[32m"), TermColor::Green);
    assert_eq!(ansi_to_style("\033[33m"), TermColor::Yellow);
    assert_eq!(ansi_to_style("\033[34m"), TermColor::Blue);
    assert_eq!(ansi_to_style("\033[35m"), TermColor::Magenta);
    assert_eq!(ansi_to_style("\033[36m"), TermColor::Cyan);
    assert_eq!(ansi_to_style("\033[37m"), TermColor::White);
    assert_eq!(ansi_to_style("\033[90m"), TermColor::BrightBlack);
    assert_eq!(ansi_to_style("\033[91m"), TermColor::BrightRed);
    assert_eq!(ansi_to_style("\033[92m"), TermColor::BrightGreen);
    assert_eq!(ansi_to_style("\033[93m"), TermColor::BrightYellow);
    assert_eq!(ansi_to_style("\033[94m"), TermColor::BrightBlue);
    assert_eq!(ansi_to_style("\033[95m"), TermColor::BrightMagenta);
    assert_eq!(ansi_to_style("\033[96m"), TermColor::BrightCyan);
    assert_eq!(ansi_to_style("\033[97m"), TermColor::BrightWhite);
}

#[test]
fn unrecognised_codes_are_white() {
    assert_eq!(ansi_to_style(""), TermColor::White);
    assert_eq!(ansi_to_style("green"), TermColor::White);
    assert_eq!(ansi_to_style("\x1b[38m"), TermColor::White);
    assert_eq!(ansi_to_style("\x1b[98m"), TermColor::White);
    assert_eq!(ansi_to_style("\x1b[41m"), TermColor::White);
    assert_eq!(ansi_to_style("\x1b[32"), TermColor::White);
    assert_eq!(ansi_to_style("\x1b[32mm"), TermColor::White);
    assert_eq!(ansi_to_style("\x1b(32m"), TermColor::White);
    assert_eq!(ansi_to_style("[32m"), TermColor::White);
    assert_eq!(ansi_to_style("\033"), TermColor::White);
    assert_eq!(ansi_to_style("\x1b"), TermColor::White);
    assert_eq!(ansi_to_style("\x1b[1;32m"), TermColor::White);
    assert_eq!(ansi_to_style("\u{e9}[32m"), TermColor::White);
}

#[test]
fn colour_names() {
    assert_eq!(TermColor::Black.name(), "black");
    assert_eq!(TermColor::Magenta.name(), "magenta");
    assert_eq!(TermColor::White.name(), "white");
    assert_eq!(TermColor::BrightBlack.name(), "bright black");
    assert_eq!(TermColor::BrightWhite.name(), "bright white");
}

#[test]
fn styled_text_keeps_the_text() {
    let plain = ansi_to_colored("\x1b[31m", "WARN");
    assert_eq!(plain.color, TermColor::Red);
    assert!(!plain.bold);
    assert_eq!(plain.text, "WARN");
    let bold = plain.bold();
    assert_eq!(bold.color, TermColor::Red);
    assert!(bold.bold);
    assert_eq!(bold.text, "WARN");
}

#[test]
fn rendering_follows_the_colour_override() {
    colored::control::set_override(true);
    assert_eq!(ansi_to_colored("\x1b[31m", "WARN").render(), "\x1b[31mWARN\x1b[0m");
    assert_eq!(ansi_to_colored("\x1b[31m", "WARN").bold().render(), "\x1b[1;31mWARN\x1b[0m");
    assert_eq!(ansi_to_colored("\033[96m", "x").bold().render(), "\x1b[1;96mx\x1b[0m");
    assert_eq!(ansi_to_colored("nothing", "x").render(), "\x1b[37mx\x1b[0m");
    assert_eq!(
        console_line(&record("hello")),
        "[\x1b[1;32mEVENT\x1b[0m] : 24-08-05 07:08:09 -> hello"
    );
    assert_eq!(
        ansi_to_colored("\x1b[31m", "a\x1b[0mb").bold().render(),
        "\x1b[1;31ma\x1b[0m\x1b[1;31mb\x1b[0m"
    );
    assert_eq!(
        ansi_to_colored("\x1b[94m", "\x1b[0m\x1b[0m").render(),
        "\x1b[94m\x1b[0m\x1b[94m\x1b[0m\x1b[94m\x1b[0m"
    );
    assert_eq!(ansi_to_colored("\x1b[31m", "").bold().render(), "\x1b[1;31m\x1b[0m");
    for n in (30..38).chain(90..98) {
        let code = format!("\x1b[{}m", n);
        assert_eq!(ansi_to_colored(&code, "x").render(), format!("\x1b[{}mx\x1b[0m", n));
        assert_eq!(ansi_to_colored(&code, "x").bold().render(), format!("\x1b[1;{}mx\x1b[0m", n));
    }
    colored::control::set_override(false);
    assert_eq!(ansi_to_colored("\x1b[31m", "WARN").render(), "WARN");
    assert_eq!(ansi_to_colored("\x1b[31m", "a\x1b[0mb").bold().render(), "a\x1b[0mb");
    assert_eq!(ansi_to_colored("\x1b[31m", "WARN").bold().render(), "WARN");
    assert_eq!(console_line(&record("hello")), "[EVENT] : 24-08-05 07:08:09 -> hello");
    assert_eq!(console_line(&record("")), "[EVENT] : 24-08-05 07:08:09 -> ");
    colored::control::unset_override();
}

#[test]
fn console_pattern_reads_both_mm_as_minutes() {
    assert_eq!(format_timestamp(&instant(), "YY-MM-DD HH:MM:SS"), "24-08-05 07:08:09");
}

#[test]
fn each_token_alone() {
    let ts = Timestamp { year: 1999, month: 12, day: 31, hour: 23, minute: 59, second: 58 };
    assert_eq!(format_timestamp(&ts, "YYYY"), "1999");
    assert_eq!(format_timestamp(&ts, "YY"), "99");
    assert_eq!(format_timestamp(&ts, "DD"), "31");
    assert_eq!(format_timestamp(&ts, "HH"), "23");
    assert_eq!(format_timestamp(&ts, "MM"), "59");
    assert_eq!(format_timestamp(&ts, "SS"), "58");
}

#[test]
fn zero_padding() {
    let ts = Timestamp { year: 2000, month: 1, day: 1, hour: 0, minute: 0, second: 0 };
    assert_eq!(format_timestamp(&ts, "YYYY/YY/DD HH.MM.SS"), "2000/00/01 00.00.00");
}

#[test]
fn other_characters_pass_through() {
    assert_eq!(format_timestamp(&instant(), ""), "");
    assert_eq!(format_timestamp(&instant(), "no tokens here"), "no tokens here");
    assert_eq!(format_timestamp(&instant(), "Y D H M S"), "Y D H M S");
    assert_eq!(format_timestamp(&instant(), "\u{e9}t\u{e9} DD \u{1f600}"), "\u{e9}t\u{e9} 05 \u{1f600}");
    assert_eq!(format_timestamp(&instant(), "yyyy dd"), "yyyy dd");
}

#[test]
fn long_year_token_goes_first() {
    assert_eq!(format_timestamp(&instant(), "YYYY-YY"), "2024-24");
    assert_eq!(format_timestamp(&instant(), "YYYYY"), "2024Y");
    assert_eq!(format_timestamp(&instant(), "YYY"), "24Y");
    assert_eq!(format_timestamp(&instant(), "YYYYYY"), "202424");
    assert_eq!(format_timestamp(&instant(), "DDD"), "05D");
    assert_eq!(format_timestamp(&instant(), "SSSS"), "0909");
}

#[test]
fn years_of_other_widths() {
    let early = Timestamp { year: 5, month: 1, day: 2, hour: 3, minute: 4, second: 5 };
    assert_eq!(format_timestamp(&early, "YYYY"), "0005");
    let medieval = Timestamp { year: 800, month: 1, day: 2, hour: 3, minute: 4, second: 5 };
    assert_eq!(format_timestamp(&medieval, "YYYY"), "0800");
    assert_eq!(format_timestamp(&medieval, "YYYY-YY"), "0800-00");
    let zero = Timestamp { year: 0, month: 1, day: 2, hour: 3, minute: 4, second: 5 };
    assert_eq!(format_timestamp(&zero, "YYYY"), "0000");
    let two = Timestamp { year: 42, month: 1, day: 2, hour: 3, minute: 4, second: 5 };
    assert_eq!(format_timestamp(&two, "YYYY"), "0042");
    let last = Timestamp { year: 9999, month: 1, day: 2, hour: 3, minute: 4, second: 5 };
    assert_eq!(format_timestamp(&last, "YYYY"), "9999");
    assert_eq!(format_timestamp(&early, "YY"), "05");
    let late = Timestamp { year: 12345, month: 1, day: 2, hour: 3, minute: 4, second: 5 };
    assert_eq!(format_timestamp(&late, "YYYY"), "12345");
    assert_eq!(format_timestamp(&late, "YY"), "45");
    let before = Timestamp { year: -5, month: 1, day: 2, hour: 3, minute: 4, second: 5 };
    assert_eq!(format_timestamp(&before, "YYYY"), "-5");
    assert_eq!(format_timestamp(&before, "YY"), "-5");
    let long_before = Timestamp { year: -123, month: 1, day: 2, hour: 3, minute: 4, second: 5 };
    assert_eq!(format_timestamp(&long_before, "YYYY YY"), "-123 -23");
    let least = Timestamp { year: i32::MIN, month: 1, day: 2, hour: 3, minute: 4, second: 5 };
    assert_eq!(format_timestamp(&least, "YYYY YY"), "-2147483648 -48");
    let most = Timestamp { year: i32::MAX, month: 1, day: 2, hour: 3, minute: 4, second: 5 };
    assert_eq!(format_timestamp(&most, "YYYY YY"), "2147483647 47");
}

#[test]
fn fields_out_of_range_render_in_full() {
    let odd = Timestamp { year: 2024, month: 13, day: 123, hour: 100, minute: 60, second: 4000000000 };
    assert_eq!(format_timestamp(&odd, "DD HH MM SS"), "123 100 60 4000000000");
}

#[test]
fn length_is_kept_for_four_digit_years() {
    let patterns = ["YY-MM-DD HH:MM:SS", "YYYY-MM-DD", "YYYYYYY", "x", "", "SSHHDDMMYYYY"];
    for p in patterns {
        assert_eq!(format_timestamp(&instant(), p).chars().count(), p.chars().count());
        for year in [0, 7, 65, 800, 9999] {
            let ts = Timestamp { year, month: 1, day: 2, hour: 3, minute: 4, second: 5 };
            assert_eq!(format_timestamp(&ts, p).chars().count(), p.chars().count());
        }
    }
}

#[test]
fn formatting_twice_gives_the_same_text() {
    let first = format_timestamp(&instant(), "YYYY-MM-DD HH:MM:SS");
    let second = format_timestamp(&instant(), "YYYY-MM-DD HH:MM:SS");
    assert_eq!(first, second);
    assert_eq!(first, "2024-08-05 07:08:09");
}

#[test]
fn record_time_uses_the_record_timestamp() {
    assert_eq!(format_log_record_time(&record("m"), "HH:MM"), "07:08");
    assert_eq!(format_log_record_time(&record("m"), "YY-MM-DD HH:MM:SS"), "24-08-05 07:08:09");
}

#[test]
fn replace_scans_left_to_right() {
    assert_eq!(replace(&chars("aaa"), &chars("aa"), &chars("b")), chars("ba"));
    assert_eq!(replace(&chars("abcabc"), &chars("bc"), &chars("")), chars("aa"));
    assert_eq!(replace(&chars("abc"), &chars("abcd"), &chars("x")), chars("abc"));
    assert_eq!(replace(&chars("abc"), &chars("abc"), &chars("xyzw")), chars("xyzw"));
    assert_eq!(replace(&chars("abab"), &chars("ab"), &chars("aba")), chars("abaaba"));
    assert_eq!(replace(&chars(""), &chars("a"), &chars("b")), chars(""));
    assert_eq!(replace(&chars("abc"), &chars(""), &chars("x")), chars("abc"));
}

#[test]
fn strings_and_characters_convert_both_ways() {
    assert_eq!(chars_of("h\u{e9}llo"), chars("h\u{e9}llo"));
    assert_eq!(string_of(&chars("h\u{e9}llo")), "h\u{e9}llo");
    assert_eq!(chars_of(""), Vec::<char>::new());
}
