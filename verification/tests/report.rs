use rugrep::report::{
    decimal_string, format_error, format_list, format_match, process_file, report, verbose_lines,
    FileProbe, Outcome,
};
use rugrep::{search, Options, OptionsFlags};

fn options(needle: &str, filenames: &[&str], verbose: bool, case_insensitive: bool) -> Options {
    Options {
        needle: needle.to_string(),
        filenames: filenames.iter().map(|name| name.to_string()).collect(),
        flags: OptionsFlags {
            verbose,
            case_insensitive,
        },
    }
}

#[test]
fn decimal_notation_of_small_and_large_numbers() {
    assert_eq!("0", decimal_string(0));
    assert_eq!("7", decimal_string(7));
    assert_eq!("9", decimal_string(9));
    assert_eq!("10", decimal_string(10));
    assert_eq!("99", decimal_string(99));
    assert_eq!("100", decimal_string(100));
    assert_eq!("1234567890", decimal_string(1234567890));
    assert_eq!(usize::MAX.to_string(), decimal_string(usize::MAX));
}

#[test]
fn decimal_notation_agrees_with_display() {
    let mut n: usize = 0;
    while n < 2000 {
        assert_eq!(n.to_string(), decimal_string(n));
        n += 1;
    }
}

#[test]
fn match_line_holds_path_number_and_text() {
    assert_eq!(
        "haystack-needle at 2: needle",
        format_match("haystack-needle", 2, "needle")
    );
    assert_eq!(" at 0: ", format_match("", 0, ""));
    assert_eq!("dir/a b.txt at 120: x: y at 3", format_match("dir/a b.txt", 120, "x: y at 3"));
}

#[test]
fn report_writes_one_line_for_each_match() {
    let found = search("hay", "hay\nneedle\nhay", false);
    assert_eq!(
        vec!["stack at 1: hay".to_string(), "stack at 3: hay".to_string()],
        report("stack", &found)
    );
    assert_eq!(Vec::<String>::new(), report("stack", &Vec::new()));
}

#[test]
fn found_line_is_written_with_path_and_number() {
    let probe = FileProbe::Contents("hay\nneedle\nhay".to_string());
    let configuration = options("needle", &["haystack-needle"], false, false);
    match process_file(&configuration, "haystack-needle", &probe) {
        Outcome::Matches(lines) => {
            assert_eq!(vec!["haystack-needle at 2: needle".to_string()], lines)
        }
        _ => panic!("the content was not searched"),
    }
}

#[test]
fn content_without_the_needle_writes_nothing() {
    let probe = FileProbe::Contents("hay\nhay\nhay".to_string());
    let configuration = options("needle", &["haystack-hay"], false, false);
    match process_file(&configuration, "haystack-hay", &probe) {
        Outcome::Matches(lines) => assert!(lines.is_empty()),
        _ => panic!("the content was not searched"),
    }
}

#[test]
fn content_is_searched_in_the_mode_of_the_options() {
    let probe = FileProbe::Contents("Needle\nhay\nneedle".to_string());
    let exact = options("needle", &["f"], false, false);
    match process_file(&exact, "f", &probe) {
        Outcome::Matches(lines) => assert_eq!(vec!["f at 3: needle".to_string()], lines),
        _ => panic!("the content was not searched"),
    }
    let folded = options("needle", &["f"], false, true);
    match process_file(&folded, "f", &probe) {
        Outcome::Matches(lines) => assert_eq!(
            vec!["f at 1: Needle".to_string(), "f at 3: needle".to_string()],
            lines
        ),
        _ => panic!("the content was not searched"),
    }
}

#[test]
fn missing_file_ends_the_run_with_the_platform_message() {
    let probe = FileProbe::Failed("No such file or directory (os error 2)".to_string());
    let configuration = options("something", &["non-existent-file"], false, false);
    match process_file(&configuration, "non-existent-file", &probe) {
        Outcome::Abort(message) => {
            assert_eq!("No such file or directory (os error 2)", message);
            assert_eq!(
                "Error: No such file or directory (os error 2)",
                format_error(&message)
            );
        }
        _ => panic!("the run went on"),
    }
}

#[test]
fn path_that_is_no_file_is_passed_over_with_a_warning() {
    let configuration = options("needle", &["some-directory"], false, false);
    match process_file(&configuration, "some-directory", &FileProbe::NotAFile) {
        Outcome::Skip(warning) => assert_eq!("some-directory isn't a file, ignoring\n", warning),
        _ => panic!("the path was not passed over"),
    }
}

#[test]
fn error_line_begins_with_error() {
    assert_eq!("Error: not enough parameters", format_error("not enough parameters"));
    assert_eq!("Error: ", format_error(""));
}

#[test]
fn list_stands_between_brackets() {
    assert_eq!("[]", format_list(&Vec::new()));
    assert_eq!("[a]", format_list(&vec!["a".to_string()]));
    assert_eq!(
        "[a, b, c]",
        format_list(&vec!["a".to_string(), "b".to_string(), "c".to_string()])
    );
    assert_eq!("[, ]", format_list(&vec!["".to_string(), "".to_string()]));
}

#[test]
fn verbose_lines_show_needle_and_files_in_debug_form() {
    let configuration = options("needle", &["one.txt", "two.txt"], true, false);
    let (first, second) = verbose_lines(&configuration);
    assert_eq!("Needle: \"needle\"", first);
    assert_eq!("Files: [\"one.txt\", \"two.txt\"]", second);
}

#[test]
fn verbose_lines_escape_what_the_debug_form_escapes() {
    let configuration = options("a\"b\\c\n", &["tab\there"], true, false);
    let (first, second) = verbose_lines(&configuration);
    assert_eq!("Needle: \"a\\\"b\\\\c\\n\"", first);
    assert_eq!("Files: [\"tab\\there\"]", second);
    assert_eq!(format!("Needle: {:?}", configuration.needle), first);
    assert_eq!(format!("Files: {:?}", configuration.filenames), second);
}

#[test]
fn verbose_lines_of_an_empty_file_list() {
    let configuration = options("", &[], true, false);
    let (first, second) = verbose_lines(&configuration);
    assert_eq!("Needle: \"\"", first);
    assert_eq!("Files: []", second);
}
