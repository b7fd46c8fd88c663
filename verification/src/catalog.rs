//! Finding the catalogue that the preferences of the catalogue program
//! name.
//!
//! The preferences are a text file. The line that holds the key
//! `libraryToLoad20` names the catalogue: behind the first equals sign of
//! the line stands its path, in quotes and followed by a comma.

use vstd::prelude::*;
use vstd::std_specs::iter::IteratorSpec;
use vstd::string::StrSliceExecFns;

verus! {

broadcast use vstd::string::group_string_axioms;

/// `c` is white space: one of the characters that Unicode gives the
/// property `White_Space`.
pub open spec fn is_white_space(c: char) -> bool {
    ||| '\u{9}' <= c <= '\u{d}'
    ||| c == ' '
    ||| c == '\u{85}'
    ||| c == '\u{a0}'
    ||| c == '\u{1680}'
    ||| '\u{2000}' <= c <= '\u{200a}'
    ||| c == '\u{2028}'
    ||| c == '\u{2029}'
    ||| c == '\u{202f}'
    ||| c == '\u{205f}'
    ||| c == '\u{3000}'
}

/// What is stripped off the ends of a text.
#[derive(Clone, Copy, Debug, PartialEq, Eq, Structural)]
pub enum Strip {
    WhiteSpace,
    Comma,
    Quote,
}

/// `c` is one of the characters that `strip` takes off.
pub open spec fn strips(strip: Strip, c: char) -> bool {
    match strip {
        Strip::WhiteSpace => is_white_space(c),
        Strip::Comma => c == ',',
        Strip::Quote => c == '"',
    }
}

/// `text` without the characters of `strip` at its start.
pub open spec fn strip_start(text: Seq<char>, strip: Strip) -> Seq<char>
    decreases text.len(),
{
    if text.len() > 0 && strips(strip, text[0]) {
        strip_start(text.drop_first(), strip)
    } else {
        text
    }
}

/// `text` without the characters of `strip` at its end.
pub open spec fn strip_end(text: Seq<char>, strip: Strip) -> Seq<char>
    decreases text.len(),
{
    if text.len() > 0 && strips(strip, text.last()) {
        strip_end(text.drop_last(), strip)
    } else {
        text
    }
}

/// `text` without the characters of `strip` at both ends.
pub open spec fn strip_both(text: Seq<char>, strip: Strip) -> Seq<char> {
    strip_end(strip_start(text, strip), strip)
}

/// `needle` occurs in `text` at offset `i`.
pub open spec fn text_occurs_at(text: Seq<char>, needle: Seq<char>, i: int) -> bool {
    0 <= i && i + needle.len() <= text.len() && text.subrange(i, i + needle.len()) == needle
}

/// `needle` occurs in `text`.
pub open spec fn contains_text(text: Seq<char>, needle: Seq<char>) -> bool {
    exists|i: int| text_occurs_at(text, needle, i)
}

/// What stands in `line` behind its first equals sign; nothing in a line
/// without one.
pub open spec fn behind_equals(line: Seq<char>) -> Seq<char>
    decreases line.len(),
{
    if line.len() == 0 {
        line
    } else if line[0] == '=' {
        line.drop_first()
    } else {
        behind_equals(line.drop_first())
    }
}

/// The key of the line that names the catalogue.
pub open spec fn library_key() -> Seq<char> {
    "libraryToLoad20"@
}

/// The path that a line of the preferences gives for the catalogue: what
/// stands behind the first equals sign, without the white space around it,
/// without the commas behind it, and without the quotes around it.
pub open spec fn library_path_in(line: Seq<char>) -> Seq<char> {
    strip_both(
        strip_end(strip_both(behind_equals(line), Strip::WhiteSpace), Strip::Comma),
        Strip::Quote,
    )
}

/// The path of the catalogue that `lines` name: that of the first line
/// which holds the key. Lines without the key name none.
pub open spec fn library_path_of(lines: Seq<Seq<char>>) -> Option<Seq<char>>
    decreases lines.len(),
{
    if lines.len() == 0 {
        None
    } else if contains_text(lines[0], library_key()) {
        Some(library_path_in(lines[0]))
    } else {
        library_path_of(lines.drop_first())
    }
}

/// The characters of `text`.
pub fn chars_of(text: &str) -> (chars: Vec<char>)
    ensures
        chars@ == text@,
{
    let mut chars: Vec<char> = Vec::new();
    let mut rest = text.chars();
    let ghost mut taken: int = 0;
    proof {
        assert(text@.skip(0) =~= text@);
        assert(text@.take(0) =~= Seq::<char>::empty());
    }
    loop
        invariant
            0 <= taken <= text@.len(),
            rest.remaining() == text@.skip(taken),
            rest.obeys_prophetic_iter_laws(),
            rest.decrease() is Some,
            chars@ == text@.take(taken),
        ensures
            chars@ == text@,
        decreases rest.decrease()->0,
    {
        match rest.next() {
            None => {
                proof {
                    assert(text@.take(taken) =~= text@);
                }
                break ;
            },
            Some(c) => {
                proof {
                    assert(text@.skip(taken)[0] == text@[taken]);
                    assert(text@.skip(taken).drop_first() =~= text@.skip(taken + 1));
                    assert(text@.take(taken + 1) =~= text@.take(taken).push(c));
                    taken = taken + 1;
                }
                chars.push(c);
            },
        }
    }
    chars
}

/// Tells whether `c` is white space.
pub fn is_white_space_char(c: char) -> (white: bool)
    ensures
        white == is_white_space(c),
{
    ('\u{9}' <= c && c <= '\u{d}') || c == ' ' || c == '\u{85}' || c == '\u{a0}' || c
        == '\u{1680}' || ('\u{2000}' <= c && c <= '\u{200a}') || c == '\u{2028}' || c
        == '\u{2029}' || c == '\u{202f}' || c == '\u{205f}' || c == '\u{3000}'
}

/// Tells whether `strip` takes `c` off.
fn strips_char(strip: Strip, c: char) -> (taken: bool)
    ensures
        taken == strips(strip, c),
{
    match strip {
        Strip::WhiteSpace => is_white_space_char(c),
        Strip::Comma => c == ',',
        Strip::Quote => c == '"',
    }
}

/// Tells whether `needle` occurs in `text`.
pub fn text_contains(text: &Vec<char>, needle: &Vec<char>) -> (found: bool)
    ensures
        found == contains_text(text@, needle@),
{
    if needle.len() == 0 {
        proof {
            assert(text@.subrange(0, 0) =~= needle@);
            assert(text_occurs_at(text@, needle@, 0));
        }
        return true;
    }
    if needle.len() > text.len() {
        assert forall|i: int| !text_occurs_at(text@, needle@, i) by {}
        return false;
    }
    let last = text.len() - needle.len();
    let mut i: usize = 0;
    while i <= last
        invariant
            i <= last + 1,
            needle@.len() > 0,
            last + needle@.len() == text@.len() <= usize::MAX,
            forall|j: int| 0 <= j < i ==> !text_occurs_at(text@, needle@, j),
        decreases last + 1 - i,
    {
        let mut k: usize = 0;
        while k < needle.len() && text[i + k] == needle[k]
            invariant
                k <= needle@.len(),
                i <= last,
                last + needle@.len() == text@.len() <= usize::MAX,
                forall|t: int| 0 <= t < k ==> text@[i + t] == needle@[t],
            decreases needle@.len() - k,
        {
            k += 1;
        }
        if k == needle.len() {
            proof {
                assert(text@.subrange(i as int, i + needle@.len()) =~= needle@);
                assert(text_occurs_at(text@, needle@, i as int));
            }
            return true;
        }
        proof {
            let window = text@.subrange(i as int, i + needle@.len());
            assert(window[k as int] == text@[i + k]);
        }
        i += 1;
    }
    false
}

/// Stripping the start of a part of a text whose first character is
/// stripped.
proof fn lemma_strip_start_step(text: Seq<char>, low: int, high: int, strip: Strip)
    requires
        0 <= low < high <= text.len(),
        strips(strip, text[low]),
    ensures
        strip_start(text.subrange(low, high), strip) == strip_start(
            text.subrange(low + 1, high),
            strip,
        ),
{
    let part = text.subrange(low, high);
    assert(part[0] == text[low]);
    assert(part.drop_first() =~= text.subrange(low + 1, high));
}

/// Stripping the end of a part of a text whose last character is stripped.
proof fn lemma_strip_end_step(text: Seq<char>, low: int, high: int, strip: Strip)
    requires
        0 <= low < high <= text.len(),
        strips(strip, text[high - 1]),
    ensures
        strip_end(text.subrange(low, high), strip) == strip_end(
            text.subrange(low, high - 1),
            strip,
        ),
{
    let part = text.subrange(low, high);
    assert(part.last() == text[high - 1]);
    assert(part.drop_last() =~= text.subrange(low, high - 1));
}

/// Where the part of `text` between `low` and `high` begins once `strip`
/// is taken off its start.
fn skip_start(text: &Vec<char>, low: usize, high: usize, strip: Strip) -> (begin: usize)
    requires
        low <= high <= text@.len(),
    ensures
        low <= begin <= high,
        text@.subrange(begin as int, high as int) == strip_start(
            text@.subrange(low as int, high as int),
            strip,
        ),
{
    let mut begin = low;
    while begin < high && strips_char(strip, text[begin])
        invariant
            low <= begin <= high <= text@.len(),
            strip_start(text@.subrange(begin as int, high as int), strip) == strip_start(
                text@.subrange(low as int, high as int),
                strip,
            ),
        decreases high - begin,
    {
        proof {
            lemma_strip_start_step(text@, begin as int, high as int, strip);
        }
        begin += 1;
    }
    proof {
        let part = text@.subrange(begin as int, high as int);
        if begin < high {
            assert(part[0] == text@[begin as int]);
        }
    }
    begin
}

/// Where the part of `text` between `low` and `high` ends once `strip` is
/// taken off its end.
fn skip_end(text: &Vec<char>, low: usize, high: usize, strip: Strip) -> (end: usize)
    requires
        low <= high <= text@.len(),
    ensures
        low <= end <= high,
        text@.subrange(low as int, end as int) == strip_end(
            text@.subrange(low as int, high as int),
            strip,
        ),
{
    let mut end = high;
    while low < end && strips_char(strip, text[end - 1])
        invariant
            low <= end <= high <= text@.len(),
            strip_end(text@.subrange(low as int, end as int), strip) == strip_end(
                text@.subrange(low as int, high as int),
                strip,
            ),
        decreases end - low,
    {
        proof {
            lemma_strip_end_step(text@, low as int, end as int, strip);
        }
        end -= 1;
    }
    proof {
        let part = text@.subrange(low as int, end as int);
        if low < end {
            assert(part.last() == text@[end - 1]);
        }
    }
    end
}

/// What stands behind the first equals sign of a text, as a part of it.
proof fn lemma_behind_equals(text: Seq<char>, at: int)
    requires
        0 <= at <= text.len(),
        forall|j: int| 0 <= j < at ==> text[j] != '=',
        at < text.len() ==> text[at] == '=',
    ensures
        at < text.len() ==> behind_equals(text) == text.subrange(at + 1, text.len() as int),
        at == text.len() ==> behind_equals(text) == Seq::<char>::empty(),
    decreases text.len(),
{
    if text.len() == 0 {
    } else if at == 0 {
        assert(text.drop_first() =~= text.subrange(1, text.len() as int));
    } else {
        let rest = text.drop_first();
        assert forall|j: int| 0 <= j < at - 1 implies rest[j] != '=' by {
            assert(rest[j] == text[j + 1]);
        }
        if at < text.len() {
            assert(rest[at - 1] == text[at]);
        }
        lemma_behind_equals(rest, at - 1);
        if at < text.len() {
            assert(rest.subrange(at, rest.len() as int) =~= text.subrange(
                at + 1,
                text.len() as int,
            ));
        }
    }
}

/// The path that a line of the preferences gives for the catalogue.
pub fn library_path_from_line(line: &str) -> (path: String)
    ensures
        path@ == library_path_in(line@),
{
    let chars = chars_of(line);
    let size = chars.len();
    let mut at: usize = 0;
    while at < size && chars[at] != '='
        invariant
            at <= size == chars@.len(),
            forall|j: int| 0 <= j < at ==> chars@[j] != '=',
        decreases size - at,
    {
        at += 1;
    }
    let low = if at < size {
        at + 1
    } else {
        size
    };
    proof {
        lemma_behind_equals(chars@, at as int);
        assert(chars@.subrange(size as int, size as int) =~= Seq::<char>::empty());
    }
    let begin = skip_start(&chars, low, size, Strip::WhiteSpace);
    let end = skip_end(&chars, begin, size, Strip::WhiteSpace);
    let end = skip_end(&chars, begin, end, Strip::Comma);
    let begin = skip_start(&chars, begin, end, Strip::Quote);
    let end = skip_end(&chars, begin, end, Strip::Quote);
    String::from_str(line.substring_char(begin, end))
}

/// Looks for the path of the catalogue in the lines of the preferences.
pub fn get_library_path_from_config_file(lines: &Vec<String>) -> (path: Option<String>)
    ensures
        path.deep_view() == library_path_of(lines.deep_view()),
{
    let key = chars_of("libraryToLoad20");
    let ghost all = lines.deep_view();
    let mut at: usize = 0;
    proof {
        assert(all.skip(0) =~= all);
    }
    while at < lines.len()
        invariant
            at <= lines@.len(),
            all == lines.deep_view(),
            key@ == library_key(),
            library_path_of(all) == library_path_of(all.skip(at as int)),
        decreases lines@.len() - at,
    {
        let line = lines[at].as_str();
        proof {
            assert(all.skip(at as int)[0] == lines@[at as int]@);
            assert(all.skip(at as int).drop_first() =~= all.skip(at + 1));
        }
        if text_contains(&chars_of(line), &key) {
            return Some(library_path_from_line(line));
        }
        at += 1;
    }
    None
}

/// Where the preferences lie below the folder `app_data_dir`, in which
/// programs keep the data of a user.
pub open spec fn preferences_path_of(app_data_dir: Seq<char>) -> Seq<char> {
    app_data_dir + "/"@ + "Adobe/Lightroom/Preferences/Lightroom Classic CC 7 Preferences.agprefs"@
}

/// The path of the preferences below the folder `app_data_dir`.
pub fn preferences_path(app_data_dir: &str) -> (path: String)
    ensures
        path@ == preferences_path_of(app_data_dir@),
{
    let mut path = String::from_str(app_data_dir);
    path.append("/");
    path.append("Adobe/Lightroom/Preferences/Lightroom Classic CC 7 Preferences.agprefs");
    path
}

} // verus!
