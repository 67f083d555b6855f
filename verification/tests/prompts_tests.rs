use kmeans_quantize::error::Error;
use kmeans_quantize::prompts::{
    parse_count, refusal_message, strip_line_feeds, trim, Mode, Options, Prompt, Reply,
};

#[test]
fn parse_count_reads_decimal_numbers() {
    assert_eq!(parse_count("0"), Some(0));
    assert_eq!(parse_count("7"), Some(7));
    assert_eq!(parse_count("12"), Some(12));
    assert_eq!(parse_count("0012"), Some(12));
    assert_eq!(parse_count("4096"), Some(4096));
}

#[test]
fn parse_count_ignores_surrounding_white_space() {
    assert_eq!(parse_count(" 42"), Some(42));
    assert_eq!(parse_count("42\n"), Some(42));
    assert_eq!(parse_count("\t 42 \r\n"), Some(42));
    assert_eq!(parse_count("\u{a0}42\u{3000}"), Some(42));
}

#[test]
fn parse_count_refuses_what_is_not_a_number() {
    for answer in ["", " ", "\n", "abc", "12a", "a12", "1 2", "-1", "+1", "1.5", "١٢"] {
        assert_eq!(parse_count(answer), None);
    }
}

#[test]
fn parse_count_refuses_numbers_too_large() {
    assert_eq!(parse_count(&usize::MAX.to_string()), Some(usize::MAX));
    assert_eq!(parse_count("18446744073709551616"), None);
    assert_eq!(parse_count("99999999999999999999999999"), None);
    assert_eq!(parse_count("184467440737095516150"), None);
}

#[test]
fn mode_parse_reads_yes_and_no() {
    for answer in ["y", "Y", "yes", "YES", "Yes", " y\n", "\tyEs "] {
        assert_eq!(Mode::parse(answer), Some(Mode::Palette));
    }
    for answer in ["n", "N", "no", "NO", "No", " n\n", "nO\r\n"] {
        assert_eq!(Mode::parse(answer), Some(Mode::Image));
    }
}

#[test]
fn mode_parse_refuses_anything_else() {
    for answer in ["", " ", "maybe", "ye", "yess", "nope", "on", "y e s", "0", "ja"] {
        assert_eq!(Mode::parse(answer), None);
    }
}

#[test]
fn prompt_accepts_by_kind() {
    assert!(Prompt::Path.accepts("whatever", true));
    assert!(!Prompt::Path.accepts("whatever", false));
    assert!(Prompt::Safe.accepts("", false));
    assert!(Prompt::Safe.accepts("out.png\n", true));
    assert!(Prompt::Num.accepts("16\n", false));
    assert!(!Prompt::Num.accepts("sixteen\n", true));
    assert!(!Prompt::Num.accepts("\n", true));
    assert!(Prompt::Mode.accepts("yes\n", false));
    assert!(Prompt::Mode.accepts("N\n", false));
    assert!(!Prompt::Mode.accepts("perhaps\n", true));
}

#[test]
fn options_from_valid_answers() {
    let options =
        Options::new("in.png".to_string(), "out.png".to_string(), "8", " 20 ", "Yes").unwrap();
    assert_eq!(options.input_path, "in.png");
    assert_eq!(options.output_path, "out.png");
    assert_eq!(options.k, 8);
    assert_eq!(options.iterations, 20);
    assert_eq!(options.mode, Mode::Palette);
    let options = Options::new("a".to_string(), "b".to_string(), "1", "0", "n").unwrap();
    assert_eq!((options.k, options.iterations, options.mode), (1, 0, Mode::Image));
}

#[test]
fn options_refuse_invalid_answers() {
    let attempt = |k: &str, iterations: &str, mode: &str| {
        Options::new("a".to_string(), "b".to_string(), k, iterations, mode)
    };
    assert!(matches!(attempt("0", "3", "y"), Err(Error::InvalidParameter)));
    assert!(matches!(attempt("", "3", "y"), Err(Error::InvalidParameter)));
    assert!(matches!(attempt("k", "3", "y"), Err(Error::InvalidParameter)));
    assert!(matches!(attempt("3", "-1", "y"), Err(Error::InvalidParameter)));
    assert!(matches!(attempt("3", "3", "palette"), Err(Error::InvalidParameter)));
    assert!(attempt("3", "3", "y").is_ok());
}

#[test]
fn error_descriptions() {
    assert_eq!(Error::EmptyImage.describe(), "image contains no pixels");
    assert_eq!(Error::InvalidParameter.describe(), "invalid parameter");
    assert_eq!(Error::DimensionMismatch.describe(), "dimension mismatch");
}

#[test]
fn trim_removes_surrounding_white_space() {
    assert_eq!(trim("  a b \t\r\n"), "a b");
    assert_eq!(trim("word"), "word");
    assert_eq!(trim(" \n "), "");
    assert_eq!(trim(""), "");
    assert_eq!(trim("\u{2003}x\u{85}"), "x");
    // the library trims what the standard library trims
    for line in ["  a b \t\r\n", "x", "", " \u{a0}é \u{3000}\n", "\u{200b}y "] {
        assert_eq!(trim(line), line.trim());
    }
}

#[test]
fn strip_line_feeds_removes_every_line_feed() {
    assert_eq!(strip_line_feeds("out.png\n"), "out.png");
    assert_eq!(strip_line_feeds("a\nb\n\nc"), "abc");
    assert_eq!(strip_line_feeds(" keep spaces \r\n"), " keep spaces \r");
    assert_eq!(strip_line_feeds(""), "");
    assert_eq!(strip_line_feeds("\n\n"), "");
    assert_eq!(strip_line_feeds("é\nü"), "éü");
}

#[test]
fn refusal_message_quotes_the_trimmed_answer() {
    assert_eq!(refusal_message(" maybe \n"), "invalid input \"maybe\" please try again \n");
    assert_eq!(refusal_message("\n"), "invalid input \"\" please try again \n");
}

#[test]
fn reply_takes_or_refuses_an_answer() {
    assert!(matches!(Prompt::Num.reply("16\n", false), Reply::Taken(a) if a == "16"));
    assert!(matches!(Prompt::Num.reply(" 16 \n", false), Reply::Taken(a) if a == " 16 "));
    assert!(matches!(
        Prompt::Num.reply("sixteen\n", false),
        Reply::Refused(m) if m == "invalid input \"sixteen\" please try again \n"
    ));
    assert!(matches!(Prompt::Mode.reply("Yes\n", false), Reply::Taken(a) if a == "Yes"));
    assert!(matches!(Prompt::Mode.reply("si\n", false), Reply::Refused(_)));
    assert!(matches!(Prompt::Safe.reply("anything at all\n", false), Reply::Taken(a) if a == "anything at all"));
    assert!(matches!(Prompt::Path.reply("in.png\n", true), Reply::Taken(a) if a == "in.png"));
    assert!(matches!(Prompt::Path.reply("in.png\n", false), Reply::Refused(_)));
}

#[test]
fn answers_taken_by_the_prompts_make_options() {
    let answer = |kind: Prompt, line: &str| match kind.reply(line, true) {
        Reply::Taken(answer) => answer,
        Reply::Refused(message) => panic!("{}", message),
    };
    let options = Options::new(
        answer(Prompt::Path, "photo.jpg\n"),
        answer(Prompt::Safe, "palette.png\n"),
        &answer(Prompt::Num, "5\n"),
        &answer(Prompt::Num, " 12\n"),
        &answer(Prompt::Mode, "y\n"),
    )
    .unwrap();
    assert_eq!(options.input_path, "photo.jpg");
    assert_eq!(options.output_path, "palette.png");
    assert_eq!((options.k, options.iterations, options.mode), (5, 12, Mode::Palette));
}
