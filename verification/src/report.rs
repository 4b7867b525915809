//! What a run prints: the line for each match, the lines of the verbose
//! mode, and what is done with each file once the file system has answered.

use vstd::prelude::*;
use crate::matcher::{entries, search, search_result};
use crate::options::Options;
use crate::text::strings;

verus! {

/// The character for one decimal digit.
pub open spec fn digit(d: nat) -> char
    recommends
        d < 10,
{
    if d == 0 {
        '0'
    } else if d == 1 {
        '1'
    } else if d == 2 {
        '2'
    } else if d == 3 {
        '3'
    } else if d == 4 {
        '4'
    } else if d == 5 {
        '5'
    } else if d == 6 {
        '6'
    } else if d == 7 {
        '7'
    } else if d == 8 {
        '8'
    } else {
        '9'
    }
}

/// A number in decimal notation, without leading zeros.
pub open spec fn decimal(n: nat) -> Seq<char>
    decreases n,
{
    if n < 10 {
        seq![digit(n)]
    } else {
        decimal(n / 10).push(digit(n % 10))
    }
}

/// The output line for one match: the path, ` at `, the line's number, `: `
/// and the line.
pub open spec fn match_line(path: Seq<char>, number: nat, text: Seq<char>) -> Seq<char> {
    path + " at "@ + decimal(number) + ": "@ + text
}

/// One decimal digit as a string.
fn digit_str(d: usize) -> (s: &'static str)
    requires
        d < 10,
    ensures
        s@ == seq![digit(d as nat)],
{
    proof {
        reveal_strlit("0");
        reveal_strlit("1");
        reveal_strlit("2");
        reveal_strlit("3");
        reveal_strlit("4");
        reveal_strlit("5");
        reveal_strlit("6");
        reveal_strlit("7");
        reveal_strlit("8");
        reveal_strlit("9");
    }
    let s = if d == 0 {
        "0"
    } else if d == 1 {
        "1"
    } else if d == 2 {
        "2"
    } else if d == 3 {
        "3"
    } else if d == 4 {
        "4"
    } else if d == 5 {
        "5"
    } else if d == 6 {
        "6"
    } else if d == 7 {
        "7"
    } else if d == 8 {
        "8"
    } else {
        "9"
    };
    assert(s@ =~= seq![digit(d as nat)]);
    s
}

/// Writes `n` in decimal notation.
pub fn decimal_string(n: usize) -> (s: String)
    ensures
        s@ == decimal(n as nat),
    decreases n,
{
    if n < 10 {
        String::from_str(digit_str(n))
    } else {
        let mut s = decimal_string(n / 10);
        s.append(digit_str(n % 10));
        assert(s@ =~= decimal((n / 10) as nat).push(digit((n % 10) as nat)));
        s
    }
}

/// Writes the output line for the match of line `line_number` of the file
/// at `filename`.
pub fn format_match(filename: &str, line_number: usize, line: &str) -> (out: String)
    ensures
        out@ == match_line(filename@, line_number as nat, line@),
{
    let mut out = String::from_str(filename);
    out.append(" at ");
    out.append(decimal_string(line_number).as_str());
    out.append(": ");
    out.append(line);
    out
}

/// The output lines for the matches of one file, in the order of the
/// matches.
pub open spec fn match_lines(path: Seq<char>, found: Seq<(nat, Seq<char>)>) -> Seq<Seq<char>> {
    Seq::new(found.len(), |i: int| match_line(path, found[i].0, found[i].1))
}

/// Writes one output line for each match that was found in the file at
/// `filename`.
pub fn report(filename: &str, found: &Vec<(usize, &str)>) -> (lines: Vec<String>)
    ensures
        strings(lines@) == match_lines(filename@, entries(found@)),
{
    let mut lines: Vec<String> = Vec::new();
    let mut i: usize = 0;
    while i < found.len()
        invariant
            i <= found.len(),
            lines.len() == i,
            forall|k: int|
                0 <= k < i ==> (#[trigger] lines@[k])@ == match_line(
                    filename@,
                    found@[k].0 as nat,
                    found@[k].1@,
                ),
        decreases found.len() - i,
    {
        lines.push(format_match(filename, found[i].0, found[i].1));
        i += 1;
    }
    assert(strings(lines@) =~= match_lines(filename@, entries(found@)));
    lines
}

/// What the file system answered for one path.
pub enum FileProbe {
    /// The path could not be examined or read; the text is the platform's
    /// message.
    Failed(String),
    /// The path is there but is no regular file.
    NotAFile,
    /// The path is a regular file with this content.
    Contents(String),
}

/// What is done for one path.
pub enum Outcome {
    /// The run ends with this message; no further file is looked at.
    Abort(String),
    /// This warning goes to the error stream, and the run goes on.
    Skip(String),
    /// These lines go to the output stream, and the run goes on.
    Matches(Vec<String>),
}

/// The warning for a path that is no regular file.
pub open spec fn skip_notice(path: Seq<char>) -> Seq<char> {
    path + " isn't a file, ignoring\n"@
}

/// The line that reports a failure to the user.
pub open spec fn error_line(message: Seq<char>) -> Seq<char> {
    "Error: "@ + message
}

/// Writes the line that reports `message` as the reason why the run failed.
pub fn format_error(message: &str) -> (out: String)
    ensures
        out@ == error_line(message@),
{
    let mut out = String::from_str("Error: ");
    out.append(message);
    out
}

/// Decides what is done for the file at `filename` once the file system has
/// answered. A failure ends the run with the platform's message; a path that
/// is no regular file is passed over with a warning; the content of a
/// regular file is searched and its matches are written out.
pub fn process_file(options: &Options, filename: &str, probe: &FileProbe) -> (outcome: Outcome)
    ensures
        match *probe {
            FileProbe::Failed(message) => outcome matches Outcome::Abort(text) && text@
                == message@,
            FileProbe::NotAFile => outcome matches Outcome::Skip(text) && text@ == skip_notice(
                filename@,
            ),
            FileProbe::Contents(content) => outcome matches Outcome::Matches(lines) && strings(
                lines@,
            ) == match_lines(
                filename@,
                search_result(options.needle@, content@, options.flags.case_insensitive),
            ),
        },
{
    match probe {
        FileProbe::Failed(message) => Outcome::Abort(message.clone()),
        FileProbe::NotAFile => {
            let mut text = String::from_str(filename);
            text.append(" isn't a file, ignoring\n");
            Outcome::Skip(text)
        },
        FileProbe::Contents(content) => {
            let found = search(
                options.needle.as_str(),
                content.as_str(),
                options.flags.case_insensitive,
            );
            Outcome::Matches(report(filename, &found))
        },
    }
}

/// The form in which `{:?}` writes a string: between double quotes, with
/// the characters that need it escaped.
pub uninterp spec fn debug_form(s: Seq<char>) -> Seq<char>;

/// The `Debug` formatting of a string slice through `format!`: the result
/// is the debug form of the argument, which depends on nothing but the
/// argument's characters.
#[verifier::external_body]
fn debug_string(s: &str) -> (quoted: String)
    ensures
        quoted@ == debug_form(s@),
{
    format!("{:?}", s)
}

/// The debug form of each text.
pub open spec fn debug_forms(items: Seq<Seq<char>>) -> Seq<Seq<char>> {
    Seq::new(items.len(), |i: int| debug_form(items[i]))
}

/// The first `n` of `items`, with `, ` between one and the next.
pub open spec fn comma_separated(items: Seq<Seq<char>>, n: int) -> Seq<char>
    decreases n,
{
    if n <= 0 {
        Seq::empty()
    } else if n == 1 {
        items[0]
    } else {
        comma_separated(items, n - 1) + ", "@ + items[n - 1]
    }
}

/// A list as it is displayed: the items between square brackets, with `, `
/// between one and the next.
pub open spec fn bracketed(items: Seq<Seq<char>>) -> Seq<char> {
    "["@ + comma_separated(items, items.len() as int) + "]"@
}

/// The first line of the verbose mode, which shows the needle.
pub open spec fn needle_line(needle: Seq<char>) -> Seq<char> {
    "Needle: "@ + debug_form(needle)
}

/// The second line of the verbose mode, which shows the file paths.
pub open spec fn files_line(paths: Seq<Seq<char>>) -> Seq<char> {
    "Files: "@ + bracketed(debug_forms(paths))
}

/// Writes `items` as a list between square brackets.
pub fn format_list(items: &Vec<String>) -> (out: String)
    ensures
        out@ == bracketed(strings(items@)),
{
    let mut out = String::from_str("[");
    let mut i: usize = 0;
    assert(out@ =~= "["@ + comma_separated(strings(items@), 0));
    while i < items.len()
        invariant
            i <= items.len(),
            out@ == "["@ + comma_separated(strings(items@), i as int),
        decreases items.len() - i,
    {
        let ghost before = out@;
        if i > 0 {
            out.append(", ");
        }
        out.append(items[i].as_str());
        assert(out@ =~= "["@ + comma_separated(strings(items@), i + 1)) by {
            assert(strings(items@)[i as int] == items@[i as int]@);
            if i == 0 {
                assert(comma_separated(strings(items@), 0) =~= Seq::empty());
            }
        }
        i += 1;
    }
    out.append("]");
    out
}

/// Writes the two lines of the verbose mode: the needle, then the file
/// paths, each in its debug form.
pub fn verbose_lines(options: &Options) -> (lines: (String, String))
    ensures
        lines.0@ == needle_line(options@.needle),
        lines.1@ == files_line(options@.filenames),
{
    let mut first = String::from_str("Needle: ");
    first.append(debug_string(options.needle.as_str()).as_str());
    let mut quoted: Vec<String> = Vec::new();
    let mut i: usize = 0;
    while i < options.filenames.len()
        invariant
            i <= options.filenames.len(),
            quoted.len() == i,
            forall|k: int|
                0 <= k < i ==> (#[trigger] quoted@[k])@ == debug_form(options.filenames@[k]@),
        decreases options.filenames.len() - i,
    {
        quoted.push(debug_string(options.filenames[i].as_str()));
        i += 1;
    }
    assert(strings(quoted@) =~= debug_forms(options@.filenames));
    let mut second = String::from_str("Files: ");
    second.append(format_list(&quoted).as_str());
    (first, second)
}

} // verus!
