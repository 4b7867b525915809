//! The line matcher: which lines of a text hold the needle.
//!
//! A line is compared in its *key*: the line itself in a case-sensitive
//! search, its lowercase form in a case-insensitive one. What is reported is
//! always the line as it stands in the text, with its number counted from 1.

use vstd::prelude::*;
use crate::text::{contains, has_substring, lines_of, lowercase, occurs_at, split_lines, texts};

verus! {

/// The form in which a text is compared.
pub open spec fn fold(s: Seq<char>, insensitive: bool) -> Seq<char> {
    if insensitive {
        lowercase(s)
    } else {
        s
    }
}

/// `line` holds `needle`, both taken in the form in which they are compared.
pub open spec fn is_match(needle: Seq<char>, line: Seq<char>, insensitive: bool) -> bool {
    contains(fold(line, insensitive), fold(needle, insensitive))
}

/// The entry for the line at index `i`: its number, counted from 1, and
/// the line.
pub open spec fn line_entry(lines: Seq<Seq<char>>, i: int) -> (nat, Seq<char>) {
    ((i + 1) as nat, lines[i])
}

/// The lines of a text, each with its number.
pub open spec fn numbered(lines: Seq<Seq<char>>) -> Seq<(nat, Seq<char>)> {
    Seq::new(lines.len(), |i: int| line_entry(lines, i))
}

/// Each entry of `found` is a line of `lines` under its number.
pub open spec fn taken_from(found: Seq<(nat, Seq<char>)>, lines: Seq<Seq<char>>) -> bool {
    forall|k: int|
        0 <= k < found.len() ==> 1 <= (#[trigger] found[k]).0 <= lines.len() && found[k].1
            == lines[found[k].0 - 1]
}

/// The numbers of `found` rise from each entry to the next.
pub open spec fn rising(found: Seq<(nat, Seq<char>)>) -> bool {
    forall|j: int, k: int|
        0 <= j < k < found.len() ==> (#[trigger] found[j]).0 < (#[trigger] found[k]).0
}

/// What a search for `needle` in `content` finds: the numbered lines of the
/// content that hold the needle, in the order of the lines.
pub open spec fn search_result(needle: Seq<char>, content: Seq<char>, insensitive: bool) -> Seq<
    (nat, Seq<char>),
> {
    numbered(split_lines(content)).filter(
        |entry: (nat, Seq<char>)| is_match(needle, entry.1, insensitive),
    )
}

/// The line numbered `number` has a key, and the key holds `needle`.
pub open spec fn key_holds(needle: Seq<char>, keys: Seq<Seq<char>>, number: nat) -> bool {
    1 <= number <= keys.len() && contains(keys[number - 1], needle)
}

/// The numbered lines whose key holds `needle`, in the order of the lines.
/// `keys[i]` is the key of `lines[i]`.
pub open spec fn selected(needle: Seq<char>, lines: Seq<Seq<char>>, keys: Seq<Seq<char>>) -> Seq<
    (nat, Seq<char>),
> {
    numbered(lines).filter(|entry: (nat, Seq<char>)| key_holds(needle, keys, entry.0))
}

/// The matches that a vector of numbered slices stands for.
pub open spec fn entries(found: Seq<(usize, &str)>) -> Seq<(nat, Seq<char>)> {
    Seq::new(found.len(), |i: int| (found[i].0 as nat, found[i].1@))
}

/// Numbering one line more appends one entry.
proof fn lemma_numbered_step(lines: Seq<Seq<char>>, n: int)
    requires
        0 < n <= lines.len(),
    ensures
        numbered(lines.take(n)) == numbered(lines.take(n - 1)).push(line_entry(lines, n - 1)),
{
    assert(numbered(lines.take(n)) =~= numbered(lines.take(n - 1)).push(
        line_entry(lines, n - 1),
    ));
}

/// Picks the lines whose key holds `needle_key`. `keys[i]` is the key of
/// `lines[i]`; a line without a key is not picked.
pub fn select_matches<'a>(needle_key: &str, lines: &Vec<&'a str>, keys: &Vec<&str>) -> (found: Vec<
    (usize, &'a str),
>)
    ensures
        entries(found@) == selected(needle_key@, texts(lines@), texts(keys@)),
{
    let ghost all = texts(lines@);
    let ghost picked = |entry: (nat, Seq<char>)| key_holds(needle_key@, texts(keys@), entry.0);
    let mut found: Vec<(usize, &'a str)> = Vec::new();
    let mut i: usize = 0;
    proof {
        assert(numbered(all.take(0)) =~= Seq::empty());
        numbered(all.take(0)).lemma_filter_len(picked);
        assert(entries(found@) =~= numbered(all.take(0)).filter(picked));
    }
    while i < lines.len()
        invariant
            i <= lines.len(),
            all == texts(lines@),
            picked == |entry: (nat, Seq<char>)| key_holds(needle_key@, texts(keys@), entry.0),
            entries(found@) == numbered(all.take(i as int)).filter(picked),
        decreases lines.len() - i,
    {
        proof {
            lemma_numbered_step(all, i + 1);
            numbered(all.take(i as int)).lemma_filter_push(line_entry(all, i as int), picked);
        }
        if i < keys.len() && has_substring(keys[i], needle_key) {
            let ghost before = found@;
            found.push((i + 1, lines[i]));
            assert(entries(found@) =~= entries(before).push(line_entry(all, i as int)));
        }
        i += 1;
    }
    assert(all.take(i as int) =~= all);
    found
}

/// The lowercase form of each line.
fn lowered_lines(lines: &Vec<&str>) -> (lowered: Vec<String>)
    ensures
        lowered.len() == lines.len(),
        forall|i: int| 0 <= i < lines.len() ==> (#[trigger] lowered@[i])@ == lowercase(lines@[i]@),
{
    let mut lowered: Vec<String> = Vec::new();
    let mut i: usize = 0;
    while i < lines.len()
        invariant
            i <= lines.len(),
            lowered.len() == i,
            forall|k: int| 0 <= k < i ==> (#[trigger] lowered@[k])@ == lowercase(lines@[k]@),
        decreases lines.len() - i,
    {
        lowered.push(lines[i].to_lowercase());
        i += 1;
    }
    lowered
}

/// The strings of `owned`, borrowed.
fn borrowed<'a>(owned: &'a Vec<String>) -> (slices: Vec<&'a str>)
    ensures
        slices.len() == owned.len(),
        forall|i: int| 0 <= i < owned.len() ==> (#[trigger] slices@[i])@ == owned@[i]@,
{
    let mut slices: Vec<&'a str> = Vec::new();
    let mut i: usize = 0;
    while i < owned.len()
        invariant
            i <= owned.len(),
            slices.len() == i,
            forall|k: int| 0 <= k < i ==> (#[trigger] slices@[k])@ == owned@[k]@,
        decreases owned.len() - i,
    {
        slices.push(owned[i].as_str());
        i += 1;
    }
    slices
}

/// Two tests that agree on the first `n` numbered lines pick the same among
/// them.
proof fn lemma_same_choice(
    lines: Seq<Seq<char>>,
    p: spec_fn((nat, Seq<char>)) -> bool,
    q: spec_fn((nat, Seq<char>)) -> bool,
    n: int,
)
    requires
        0 <= n <= lines.len(),
        forall|i: int|
            0 <= i < n ==> p(#[trigger] line_entry(lines, i)) == q(line_entry(lines, i)),
    ensures
        numbered(lines.take(n)).filter(p) == numbered(lines.take(n)).filter(q),
    decreases n,
{
    if n > 0 {
        lemma_same_choice(lines, p, q, n - 1);
        lemma_numbered_step(lines, n);
        let before = numbered(lines.take(n - 1));
        let last = line_entry(lines, n - 1);
        before.lemma_filter_push(last, p);
        before.lemma_filter_push(last, q);
    } else {
        assert(numbered(lines.take(0)) =~= Seq::empty());
        numbered(lines.take(0)).lemma_filter_len(p);
        numbered(lines.take(0)).lemma_filter_len(q);
        assert(numbered(lines.take(n)).filter(p) =~= numbered(lines.take(n)).filter(q));
    }
}

/// Selecting by the folded lines as keys is searching.
proof fn lemma_selected_by_folded_keys(
    needle: Seq<char>,
    content: Seq<char>,
    keys: Seq<Seq<char>>,
    insensitive: bool,
)
    requires
        keys.len() == split_lines(content).len(),
        forall|i: int|
            0 <= i < keys.len() ==> #[trigger] keys[i] == fold(
                split_lines(content)[i],
                insensitive,
            ),
    ensures
        selected(fold(needle, insensitive), split_lines(content), keys) == search_result(
            needle,
            content,
            insensitive,
        ),
{
    let lines = split_lines(content);
    let p = |entry: (nat, Seq<char>)| key_holds(fold(needle, insensitive), keys, entry.0);
    let q = |entry: (nat, Seq<char>)| is_match(needle, entry.1, insensitive);
    assert forall|i: int| 0 <= i < lines.len() implies p(#[trigger] line_entry(lines, i)) == q(
        line_entry(lines, i),
    ) by {
        assert(keys[i] == fold(lines[i], insensitive));
    }
    lemma_same_choice(lines, p, q, lines.len() as int);
    assert(lines.take(lines.len() as int) =~= lines);
}

/// Searches `content` for the lines that hold `query`, and gives each with
/// its number. With `insensitive`, needle and line are compared in their
/// lowercase forms; the line is reported as it stands in `content`.
pub fn search<'a>(query: &str, content: &'a str, insensitive: bool) -> (found: Vec<
    (usize, &'a str),
>)
    ensures
        entries(found@) == search_result(query@, content@, insensitive),
{
    let lines = lines_of(content);
    if insensitive {
        let needle_key = query.to_lowercase();
        let lowered = lowered_lines(&lines);
        let keys = borrowed(&lowered);
        proof {
            assert(texts(lines@).len() == lines.len());
            assert forall|i: int| 0 <= i < keys.len() implies #[trigger] texts(keys@)[i] == fold(
                split_lines(content@)[i],
                true,
            ) by {
                assert(texts(lines@)[i] == lines@[i]@);
            }
            lemma_selected_by_folded_keys(query@, content@, texts(keys@), true);
        }
        select_matches(needle_key.as_str(), &lines, &keys)
    } else {
        proof {
            lemma_selected_by_folded_keys(query@, content@, texts(lines@), false);
        }
        select_matches(query, &lines, &lines)
    }
}

/// Among the first `n` numbered lines a test picks each line that passes
/// it, once, under its number and in the order of the lines, and nothing
/// else.
proof fn lemma_choice(lines: Seq<Seq<char>>, p: spec_fn((nat, Seq<char>)) -> bool, n: int)
    requires
        0 <= n <= lines.len(),
    ensures
        taken_from(numbered(lines.take(n)).filter(p), lines.take(n)),
        rising(numbered(lines.take(n)).filter(p)),
        forall|k: int|
            0 <= k < numbered(lines.take(n)).filter(p).len() ==> p(
                #[trigger] numbered(lines.take(n)).filter(p)[k],
            ),
        forall|i: int|
            0 <= i < n && p(#[trigger] line_entry(lines, i)) ==> numbered(lines.take(n)).filter(
                p,
            ).contains(line_entry(lines, i)),
    decreases n,
{
    let now = numbered(lines.take(n)).filter(p);
    if n > 0 {
        lemma_choice(lines, p, n - 1);
        lemma_numbered_step(lines, n);
        let before = numbered(lines.take(n - 1)).filter(p);
        numbered(lines.take(n - 1)).lemma_filter_push(line_entry(lines, n - 1), p);
        assert forall|k: int| 0 <= k < now.len() implies 1 <= (#[trigger] now[k]).0 <= n
            && now[k].1 == lines.take(n)[now[k].0 - 1] by {
            if k < before.len() {
                assert(before[k].1 == lines.take(n - 1)[before[k].0 - 1]);
            }
        }
        assert forall|i: int| 0 <= i < n && p(#[trigger] line_entry(lines, i)) implies now.contains(
            line_entry(lines, i),
        ) by {
            if i < n - 1 {
                let k = choose|k: int| 0 <= k < before.len() && before[k] == line_entry(lines, i);
                assert(now[k] == line_entry(lines, i));
            } else {
                assert(now[now.len() - 1] == line_entry(lines, i));
            }
        }
    } else {
        assert(numbered(lines.take(0)) =~= Seq::empty());
        numbered(lines.take(0)).lemma_filter_len(p);
    }
}

/// What a search reports, in either mode. Each entry is a line of the
/// content under its number, counted from 1, and the line holds the needle
/// in the form in which the mode compares them; the numbers rise from entry
/// to entry; and no line that holds the needle is left out.
pub proof fn search_reports_exactly_the_matching_lines(
    needle: Seq<char>,
    content: Seq<char>,
    insensitive: bool,
)
    ensures
        taken_from(search_result(needle, content, insensitive), split_lines(content)),
        rising(search_result(needle, content, insensitive)),
        forall|k: int|
            0 <= k < search_result(needle, content, insensitive).len() ==> is_match(
                needle,
                (#[trigger] search_result(needle, content, insensitive)[k]).1,
                insensitive,
            ),
        forall|i: int|
            0 <= i < split_lines(content).len() && is_match(
                needle,
                split_lines(content)[i],
                insensitive,
            ) ==> search_result(needle, content, insensitive).contains(
                #[trigger] line_entry(split_lines(content), i),
            ),
{
    let lines = split_lines(content);
    let p = |entry: (nat, Seq<char>)| is_match(needle, entry.1, insensitive);
    lemma_choice(lines, p, lines.len() as int);
    assert(lines.take(lines.len() as int) =~= lines);
}

/// A case-sensitive search reports only lines that hold the needle as it is
/// written, each under its number counted from 1, in rising order of the
/// numbers.
pub proof fn sensitive_search_reports_lines_that_hold_the_needle(
    needle: Seq<char>,
    content: Seq<char>,
)
    ensures
        taken_from(search_result(needle, content, false), split_lines(content)),
        rising(search_result(needle, content, false)),
        forall|k: int|
            0 <= k < search_result(needle, content, false).len() ==> contains(
                (#[trigger] search_result(needle, content, false)[k]).1,
                needle,
            ),
{
    search_reports_exactly_the_matching_lines(needle, content, false);
}

/// A case-insensitive search reports exactly the lines whose lowercase form
/// holds the lowercase form of the needle: every entry is such a line, as it
/// stands in the content, and every such line has its entry.
pub proof fn insensitive_search_compares_lowercase_forms(needle: Seq<char>, content: Seq<char>)
    ensures
        taken_from(search_result(needle, content, true), split_lines(content)),
        forall|k: int|
            0 <= k < search_result(needle, content, true).len() ==> contains(
                lowercase((#[trigger] search_result(needle, content, true)[k]).1),
                lowercase(needle),
            ),
        forall|i: int|
            0 <= i < split_lines(content).len() && contains(
                lowercase(split_lines(content)[i]),
                lowercase(needle),
            ) ==> search_result(needle, content, true).contains(
                #[trigger] line_entry(split_lines(content), i),
            ),
{
    search_reports_exactly_the_matching_lines(needle, content, true);
}

/// A test that every one of the first `n` numbered lines passes picks them
/// all.
proof fn lemma_all_chosen(lines: Seq<Seq<char>>, p: spec_fn((nat, Seq<char>)) -> bool, n: int)
    requires
        0 <= n <= lines.len(),
        forall|i: int| 0 <= i < n ==> p(#[trigger] line_entry(lines, i)),
    ensures
        numbered(lines.take(n)).filter(p) == numbered(lines.take(n)),
    decreases n,
{
    if n > 0 {
        lemma_all_chosen(lines, p, n - 1);
        lemma_numbered_step(lines, n);
        numbered(lines.take(n - 1)).lemma_filter_push(line_entry(lines, n - 1), p);
    } else {
        assert(numbered(lines.take(0)) =~= Seq::empty());
        numbered(lines.take(0)).lemma_filter_len(p);
        assert(numbered(lines.take(n)).filter(p) =~= numbered(lines.take(n)));
    }
}

/// A case-sensitive search for the empty needle reports every line of the
/// content, once and in order.
pub proof fn empty_needle_reports_every_line(content: Seq<char>)
    ensures
        search_result(Seq::empty(), content, false) == numbered(split_lines(content)),
{
    let lines = split_lines(content);
    let p = |entry: (nat, Seq<char>)| is_match(Seq::empty(), entry.1, false);
    assert forall|i: int| 0 <= i < lines.len() implies p(#[trigger] line_entry(lines, i)) by {
        assert(lines[i].subrange(0, 0) =~= Seq::<char>::empty());
        assert(occurs_at(lines[i], Seq::empty(), 0));
    }
    lemma_all_chosen(lines, p, lines.len() as int);
    assert(lines.take(lines.len() as int) =~= lines);
}

/// A search in the empty content reports nothing, whatever the needle and
/// the mode.
pub proof fn empty_content_reports_nothing(needle: Seq<char>, insensitive: bool)
    ensures
        search_result(needle, Seq::empty(), insensitive) == Seq::<(nat, Seq<char>)>::empty(),
{
    let p = |entry: (nat, Seq<char>)| is_match(needle, entry.1, insensitive);
    assert(numbered(split_lines(Seq::empty())) =~= Seq::empty());
    Seq::<(nat, Seq<char>)>::empty().lemma_filter_len(p);
    assert(search_result(needle, Seq::empty(), insensitive) =~= Seq::empty());
}

/// Two searches with the same needle, content and mode report the same: as
/// many entries, and entry by entry the same number and the same text.
pub proof fn search_is_repeatable(
    first: Seq<(usize, &str)>,
    second: Seq<(usize, &str)>,
    needle: Seq<char>,
    content: Seq<char>,
    insensitive: bool,
)
    requires
        entries(first) == search_result(needle, content, insensitive),
        entries(second) == search_result(needle, content, insensitive),
    ensures
        first.len() == second.len(),
        forall|k: int|
            0 <= k < first.len() ==> (#[trigger] first[k]).0 == second[k].0 && first[k].1@
                == second[k].1@,
{
    assert(entries(first).len() == first.len());
    assert(entries(second).len() == second.len());
    assert forall|k: int| 0 <= k < first.len() implies (#[trigger] first[k]).0 == second[k].0
        && first[k].1@ == second[k].1@ by {
        assert(entries(first)[k] == entries(second)[k]);
    }
}

} // verus!
