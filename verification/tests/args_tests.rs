use pixelflux::numparse::parse_unsigned_str;
use pixelflux::push_args::{args_would_crash, parse_args, Parsed, PushArgs};

fn args(list: &[&str]) -> Vec<String> {
    list.iter().map(|s| s.to_string()).collect()
}

fn run(list: &[&str]) -> PushArgs {
    let a = args(list);
    assert!(!args_would_crash(&a));
    match parse_args(&a) {
        Ok(Parsed::Run(p)) => p,
        Ok(Parsed::Help) => panic!("unexpected help"),
        Err(e) => panic!("unexpected error {e}"),
    }
}

fn fail(list: &[&str]) -> String {
    let a = args(list);
    assert!(!args_would_crash(&a));
    match parse_args(&a) {
        Err(e) => e,
        Ok(_) => panic!("expected an error"),
    }
}

#[test]
fn defaults_apply_with_just_an_image() {
    let p = run(&["pic.png"]);
    assert_eq!(p.image, "pic.png");
    assert_eq!(p.host, "http://localhost:3000");
    assert!(!p.contain && !p.nearest && !p.dither && !p.bruteforce && !p.no_cache);
    assert!(p.alpha_skip);
    assert_eq!(p.alpha_threshold, 128);
    assert_eq!(p.background, [255, 255, 255]);
    assert_eq!((p.concurrency, p.connections), (128, 1));
    assert_eq!((p.delay_ms, p.interval_ms), (0, 1000));
    assert_eq!(p.tokens, None);
    assert!(p.supplied_tokens.is_empty());
    assert_eq!((p.rate, p.rate_window), (4096, 30));
}

#[test]
fn flags_are_read() {
    let p = run(&[
        "--host", "https://x.example/", "--contain", "--nearest", "--dither", "--flatten",
        "--alpha-threshold", "+7", "--background", "#102030", "--token", "  tok ", "--token", "t2",
        "--tokens", "4", "--rate", "10", "--rate-window", "2", "--no-cache", "--loop",
        "--interval-ms", "250", "--concurrency", "8", "--connections", "3", "--delay-ms", "5", "img.png",
    ]);
    assert_eq!(p.host, "https://x.example/");
    assert!(p.contain && p.nearest && p.dither && !p.alpha_skip && p.no_cache && p.bruteforce);
    assert_eq!(p.alpha_threshold, 7);
    assert_eq!(p.background, [0x10, 0x20, 0x30]);
    assert_eq!(p.supplied_tokens, vec!["tok".to_string(), "t2".to_string()]);
    assert_eq!(p.tokens, Some(4));
    assert_eq!((p.rate, p.rate_window, p.interval_ms), (10, 2, 250));
    assert_eq!((p.concurrency, p.connections, p.delay_ms), (8, 3, 5));
    assert_eq!(p.image, "img.png");
}

#[test]
fn help_stops_reading() {
    assert!(matches!(parse_args(&args(&["--help", "--bogus"])), Ok(Parsed::Help)));
    assert!(matches!(parse_args(&args(&["x.png", "-h"])), Ok(Parsed::Help)));
}

#[test]
fn bad_arguments_are_reported() {
    assert_eq!(fail(&[]), "missing <image> argument (try --help)");
    assert_eq!(fail(&["a.png", "b.png"]), "more than one image path given");
    assert_eq!(fail(&["--bogus"]), "unknown flag: --bogus");
    assert_eq!(fail(&["a.png", "--host"]), "--host needs a value");
    assert_eq!(fail(&["a.png", "--rate", "x"]), "--rate must be a number");
    assert_eq!(fail(&["a.png", "--alpha-threshold", "256"]), "--alpha-threshold must be 0–255");
    assert_eq!(fail(&["a.png", "--token", "   "]), "--token must not be empty");
    assert_eq!(fail(&["a.png", "--background", "red"]), "bad hex colour: 'red'");
    assert_eq!(fail(&["a.png", "--concurrency", "0"]), "--concurrency and --connections must be >= 1");
    assert_eq!(fail(&["a.png", "--rate-window", "0"]), "--rate and --rate-window must be >= 1");
    assert_eq!(
        fail(&["a.png", "--tokens", "0"]),
        "no paint tokens requested; pass --token or use --tokens 1"
    );
    // The first problem wins, even before the image is seen.
    assert_eq!(fail(&["--rate", "-1", "a.png"]), "--rate must be a number");
}

#[test]
fn tokens_zero_is_fine_with_supplied_tokens() {
    let p = run(&["a.png", "--tokens", "0", "--token", "k"]);
    assert_eq!(p.tokens, Some(0));
    assert_eq!(p.supplied_tokens, vec!["k".to_string()]);
}

#[test]
fn background_cut_through_a_character_is_detected() {
    assert!(args_would_crash(&args(&["a.png", "--background", "aé012"])));
    assert!(!args_would_crash(&args(&["a.png", "--background", "abcdef"])));
}

#[test]
fn unsigned_numbers_parse_like_std() {
    assert_eq!(parse_unsigned_str("42", u64::MAX), Some(42));
    assert_eq!(parse_unsigned_str("+0", 255), Some(0));
    assert_eq!(parse_unsigned_str("255", 255), Some(255));
    assert_eq!(parse_unsigned_str("256", 255), None);
    assert_eq!(parse_unsigned_str("", 255), None);
    assert_eq!(parse_unsigned_str("+", 255), None);
    assert_eq!(parse_unsigned_str(" 1", 255), None);
    assert_eq!(parse_unsigned_str("18446744073709551615", u64::MAX), Some(u64::MAX));
    assert_eq!(parse_unsigned_str("18446744073709551616", u64::MAX), None);
}
