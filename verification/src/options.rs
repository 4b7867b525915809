//! The configuration parser: from the tokens of a command line to the needle,
//! the file paths and the flags.
//!
//! A token that begins with `-` is a flag, every other token is positional.
//! The first positional token is the needle, those after it are file paths.

use vstd::prelude::*;
use crate::text::strings;

verus! {

/// What a command line switches on.
pub struct OptionsFlags {
    pub verbose: bool,
    pub case_insensitive: bool,
}

/// A parsed command line.
pub struct Options {
    pub flags: OptionsFlags,
    pub needle: String,
    pub filenames: Vec<String>,
}

/// A configuration as plain values.
pub ghost struct OptionsView {
    pub needle: Seq<char>,
    pub filenames: Seq<Seq<char>>,
    pub verbose: bool,
    pub case_insensitive: bool,
}

impl View for Options {
    type V = OptionsView;

    open spec fn view(&self) -> OptionsView {
        OptionsView {
            needle: self.needle@,
            filenames: strings(self.filenames@),
            verbose: self.flags.verbose,
            case_insensitive: self.flags.case_insensitive,
        }
    }
}

/// `token` is a flag: it begins with `-`.
pub open spec fn is_flag(token: Seq<char>) -> bool {
    token.len() > 0 && token[0] == '-'
}

/// The flag made of `-` and one letter.
pub open spec fn switch(letter: char) -> Seq<char> {
    seq!['-', letter]
}

/// The tokens that are no flags, in their order.
pub open spec fn positionals(tokens: Seq<Seq<char>>) -> Seq<Seq<char>> {
    tokens.filter(|token: Seq<char>| !is_flag(token))
}

/// The tokens hold enough to search with: a needle and one file path.
pub open spec fn is_complete(tokens: Seq<Seq<char>>) -> bool {
    positionals(tokens).len() >= 2
}

/// The configuration that `tokens` stand for. `forced_insensitive` switches
/// case-insensitive matching on whatever the tokens say.
pub open spec fn configuration(tokens: Seq<Seq<char>>, forced_insensitive: bool) -> OptionsView
    recommends
        is_complete(tokens),
{
    OptionsView {
        needle: positionals(tokens)[0],
        filenames: positionals(tokens).skip(1),
        verbose: tokens.contains(switch('v')),
        case_insensitive: forced_insensitive || tokens.contains(switch('i')),
    }
}

/// The message with which too short a command line is turned down.
pub open spec fn not_enough_parameters() -> Seq<char> {
    "not enough parameters"@
}

/// Whether `token` begins with `-`.
fn starts_flag(token: &str) -> (flag: bool)
    ensures
        flag == is_flag(token@),
{
    !token.is_empty() && token.get_char(0) == '-'
}

/// Whether `token` is `-` followed by `letter` and nothing else.
fn is_switch(token: &str, letter: char) -> (same: bool)
    ensures
        same == (token@ == switch(letter)),
{
    let same = token.unicode_len() == 2 && token.get_char(0) == '-' && token.get_char(1) == letter;
    proof {
        if same {
            assert(token@ =~= switch(letter));
        }
    }
    same
}

impl Options {
    /// A configuration holds at least one file path.
    pub open spec fn wf(&self) -> bool {
        self.filenames@.len() >= 1
    }

    /// Parses `args`, the tokens of a command line without the program's
    /// name. Flags may stand anywhere among them; `-v` and `-i` are known,
    /// any other flag is passed over. `forced_insensitive` switches
    /// case-insensitive matching on whether or not `-i` is among them. Fewer
    /// than two positional tokens are turned down.
    pub fn new(args: Vec<String>, forced_insensitive: bool) -> (parsed: Result<
        Options,
        &'static str,
    >)
        ensures
            parsed is Ok <==> is_complete(strings(args@)),
            parsed matches Ok(options) ==> options.wf() && options@ == configuration(
                strings(args@),
                forced_insensitive,
            ),
            parsed matches Err(message) ==> message@ == not_enough_parameters(),
    {
        let ghost tokens = strings(args@);
        let ghost plain = |token: Seq<char>| !is_flag(token);
        let mut items: Vec<String> = Vec::new();
        let mut verbose = false;
        let mut insensitive = false;
        assert(tokens.take(0) =~= Seq::empty());
        assert(strings(items@) =~= Seq::empty());
        proof {
            Seq::<Seq<char>>::empty().lemma_filter_len(plain);
        }
        for arg in iter: args
            invariant
                tokens == strings(iter.seq()),
                plain == |token: Seq<char>| !is_flag(token),
                strings(items@) == tokens.take(iter.index() as int).filter(plain),
                verbose == tokens.take(iter.index() as int).contains(switch('v')),
                insensitive == tokens.take(iter.index() as int).contains(switch('i')),
        {
            proof {
                let seen = tokens.take(iter.index() as int);
                assert(tokens.take(iter.index() + 1) =~= seen.push(arg@));
                seen.lemma_filter_push(arg@, plain);
                lemma_contains_push(seen, arg@, switch('v'));
                lemma_contains_push(seen, arg@, switch('i'));
            }
            if starts_flag(arg.as_str()) {
                if is_switch(arg.as_str(), 'v') {
                    verbose = true;
                }
                if is_switch(arg.as_str(), 'i') {
                    insensitive = true;
                }
            } else {
                let ghost before = items@;
                items.push(arg);
                assert(strings(items@) =~= strings(before).push(arg@));
            }
        }
        assert(tokens.take(tokens.len() as int) =~= tokens);
        if items.len() < 2 {
            return Err("not enough parameters");
        }
        let ghost all = items@;
        let needle = items.remove(0);
        assert(strings(items@) =~= strings(all).skip(1));
        Ok(
            Options {
                flags: OptionsFlags {
                    verbose,
                    case_insensitive: insensitive || forced_insensitive,
                },
                needle,
                filenames: items,
            },
        )
    }
}

/// A sequence with one more element holds `x` exactly when the sequence held
/// it or the new element is `x`.
proof fn lemma_contains_push<A>(s: Seq<A>, last: A, x: A)
    ensures
        s.push(last).contains(x) == (s.contains(x) || last == x),
{
    if s.contains(x) {
        let k = choose|k: int| 0 <= k < s.len() && s[k] == x;
        assert(s.push(last)[k] == x);
    }
    if last == x {
        assert(s.push(last)[s.len() as int] == x);
    }
    if s.push(last).contains(x) {
        let k = choose|k: int| 0 <= k < s.push(last).len() && s.push(last)[k] == x;
        if k < s.len() {
            assert(s[k] == x);
        }
    }
}

/// A flag leaves the positional tokens as they are, wherever it stands
/// among the tokens: the needle and the file paths do not depend on it.
pub proof fn flag_changes_no_positional(
    before: Seq<Seq<char>>,
    flag: Seq<char>,
    after: Seq<Seq<char>>,
)
    requires
        is_flag(flag),
    ensures
        positionals(before + seq![flag] + after) == positionals(before + after),
        is_complete(before + seq![flag] + after) == is_complete(before + after),
{
    let plain = |token: Seq<char>| !is_flag(token);
    Seq::filter_distributes_over_add(before + seq![flag], after, plain);
    Seq::filter_distributes_over_add(before, after, plain);
    assert(before + seq![flag] =~= before.push(flag));
    before.lemma_filter_push(flag, plain);
}

/// A flag other than `-v` and `-i` changes nothing: with it and without it
/// the tokens stand for the same configuration.
pub proof fn unknown_flag_is_passed_over(
    before: Seq<Seq<char>>,
    flag: Seq<char>,
    after: Seq<Seq<char>>,
    forced_insensitive: bool,
)
    requires
        is_flag(flag),
        flag != switch('v'),
        flag != switch('i'),
    ensures
        configuration(before + seq![flag] + after, forced_insensitive) == configuration(
            before + after,
            forced_insensitive,
        ),
{
    flag_changes_no_positional(before, flag, after);
    lemma_contains_without(before, flag, after, switch('v'));
    lemma_contains_without(before, flag, after, switch('i'));
}

/// Taking out an element other than `x` does not change whether a sequence
/// holds `x`.
proof fn lemma_contains_without<A>(before: Seq<A>, other: A, after: Seq<A>, x: A)
    requires
        other != x,
    ensures
        (before + seq![other] + after).contains(x) == (before + after).contains(x),
{
    let long = before + seq![other] + after;
    let short = before + after;
    if long.contains(x) {
        let k = choose|k: int| 0 <= k < long.len() && long[k] == x;
        if k < before.len() {
            assert(short[k] == x);
        } else {
            assert(short[k - 1] == x);
        }
    }
    if short.contains(x) {
        let k = choose|k: int| 0 <= k < short.len() && short[k] == x;
        if k < before.len() {
            assert(long[k] == x);
        } else {
            assert(long[k + 1] == x);
        }
    }
}

} // verus!
