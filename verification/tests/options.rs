use rugrep::{Options, OptionsFlags};

fn tokens(words: &[&str]) -> Vec<String> {
    words.iter().map(|word| word.to_string()).collect()
}

fn rejected(words: &[&str]) -> &'static str {
    match Options::new(tokens(words), false) {
        Ok(_) => panic!("the tokens were taken"),
        Err(message) => message,
    }
}

fn parsed(words: &[&str], forced_insensitive: bool) -> Options {
    match Options::new(tokens(words), forced_insensitive) {
        Ok(options) => options,
        Err(message) => panic!("the tokens were turned down: {}", message),
    }
}

#[test]
fn no_token_is_not_enough() {
    assert_eq!("not enough parameters", rejected(&[]));
}

#[test]
fn one_positional_token_is_not_enough() {
    assert_eq!("not enough parameters", rejected(&["something"]));
}

#[test]
fn flags_do_not_count_as_parameters() {
    assert_eq!("not enough parameters", rejected(&["-v", "needle", "-i"]));
    assert_eq!("not enough parameters", rejected(&["-v", "-i", "-x"]));
    assert_eq!("not enough parameters", rejected(&["needle", "-file.txt"]));
}

#[test]
fn forced_mode_does_not_make_up_for_parameters() {
    assert!(Options::new(tokens(&["needle"]), true).is_err());
}

#[test]
fn verbose_flag_before_needle_and_file() {
    let options = parsed(&["-v", "needle", "file.txt"], false);
    assert_eq!("needle", options.needle);
    assert_eq!(vec!["file.txt".to_string()], options.filenames);
    assert!(options.flags.verbose);
    assert!(!options.flags.case_insensitive);
}

#[test]
fn needle_and_file_without_flags() {
    let options = parsed(&["needle", "file.txt"], false);
    assert_eq!("needle", options.needle);
    assert_eq!(vec!["file.txt".to_string()], options.filenames);
    assert!(!options.flags.verbose);
    assert!(!options.flags.case_insensitive);
}

#[test]
fn insensitive_flag_is_read() {
    let options = parsed(&["needle", "file.txt", "-i"], false);
    assert!(options.flags.case_insensitive);
    assert!(!options.flags.verbose);
}

#[test]
fn forced_mode_switches_insensitive_on() {
    let options = parsed(&["needle", "file.txt"], true);
    assert!(options.flags.case_insensitive);
    assert!(!options.flags.verbose);
    let both = parsed(&["-i", "needle", "file.txt"], true);
    assert!(both.flags.case_insensitive);
}

#[test]
fn flags_may_stand_anywhere() {
    let options = parsed(&["needle", "-i", "one", "-v", "two", "-v", "three"], false);
    assert_eq!("needle", options.needle);
    assert_eq!(
        vec!["one".to_string(), "two".to_string(), "three".to_string()],
        options.filenames
    );
    assert!(options.flags.verbose);
    assert!(options.flags.case_insensitive);
}

#[test]
fn unknown_flags_are_passed_over() {
    let options = parsed(&["-x", "needle", "--verbose", "file.txt", "-vi", "-", "-I", "-V"], false);
    assert_eq!("needle", options.needle);
    assert_eq!(vec!["file.txt".to_string()], options.filenames);
    assert!(!options.flags.verbose);
    assert!(!options.flags.case_insensitive);
}

#[test]
fn empty_token_is_positional() {
    let options = parsed(&["", "file.txt"], false);
    assert_eq!("", options.needle);
    assert_eq!(vec!["file.txt".to_string()], options.filenames);
    let other = parsed(&["needle", ""], false);
    assert_eq!(vec!["".to_string()], other.filenames);
}

#[test]
fn dash_inside_a_token_makes_no_flag() {
    let options = parsed(&["a-v", "x-i", " -v"], false);
    assert_eq!("a-v", options.needle);
    assert_eq!(vec!["x-i".to_string(), " -v".to_string()], options.filenames);
    assert!(!options.flags.verbose);
    assert!(!options.flags.case_insensitive);
}

#[test]
fn tokens_outside_ascii_are_kept() {
    let options = parsed(&["größe", "-é", "päth"], false);
    assert_eq!("größe", options.needle);
    assert_eq!(vec!["päth".to_string()], options.filenames);
}

#[test]
fn options_can_be_written_by_hand() {
    let options = Options {
        needle: String::from("needle"),
        filenames: vec![String::from("file1.txt")],
        flags: OptionsFlags {
            verbose: false,
            case_insensitive: false,
        },
    };
    assert_eq!("needle", options.needle);
    assert_eq!(1, options.filenames.len());
}
