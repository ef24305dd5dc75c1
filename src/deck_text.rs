//! Reading a deck list written as text, one card per line:
//! `<count> [<set>#<number>] <name> (<set>) <number> *F* <tags> #comment`,
//! every part but the count and the name optional.

use vstd::prelude::*;
use crate::ascii::folded;
use crate::deck_list::DeckList;
use crate::identifier::{CollectionCardIdentifier, IdentKey};

verus! {

/// The pattern of a deck line. Its groups are, in order: count, set,
/// collector number, name, set and collector number in the Arena form.
pub const DECK_LINE_PATTERN: &'static str = r"(?Rm)^(?<count>\d+) (?:\[(?<set>\S+?)(?:#(?<collector_number>\d+))?\] )?(?<name>.+?)(?:\((?<arena_set>.+)\) (?<arena_collector_number>\S+))?(?: \*F\*)?(?: <.*>)?(?: #.*)?$";

/// The capture groups of each match of `pattern` in `text`, in order; group
/// zero is the whole match.
pub uninterp spec fn regex_captures(pattern: Seq<char>, text: Seq<char>) -> Seq<Seq<Option<Seq<char>>>>;

pub open spec fn captures_view(v: Seq<Vec<Option<String>>>) -> Seq<Seq<Option<Seq<char>>>> {
    v.map_values(|c: Vec<Option<String>>| c@.map_values(|g: Option<String>| match g {
        Some(s) => Some(s@),
        None => None,
    }))
}

/// Relies on regex::Regex::new and regex::Regex::captures_iter: the text of
/// every capture group of every match, when the pattern compiles; the
/// message of the compile error otherwise.
#[verifier::external_body]
fn all_captures(pattern: &str, text: &str) -> (r: Result<Vec<Vec<Option<String>>>, String>)
    ensures
        r matches Ok(v) ==> captures_view(v@) == regex_captures(pattern@, text@),
{
    let re = match regex::Regex::new(pattern) {
        Ok(re) => re,
        Err(e) => return Err(e.to_string()),
    };
    Ok(re.captures_iter(text).map(|c| c.iter().map(|g| g.map(|m| m.as_str().to_string())).collect()).collect())
}

/// Why a deck list could not be read.
#[derive(Debug)]
pub enum DeckParseError {
    /// The line pattern did not compile.
    InvalidPattern(String),
    /// A count is not a number that fits.
    InvalidCount(String),
}

/// The value of a string of ASCII digits.
pub open spec fn digits_value(s: Seq<char>) -> nat
    decreases s.len(),
{
    if s.len() == 0 {
        0
    } else {
        digits_value(s.drop_last()) * 10 + ((s.last() as u32) - 48) as nat
    }
}

pub open spec fn is_ascii_digit(c: char) -> bool {
    48 <= (c as u32) <= 57
}

/// The count that `s` spells: one or more ASCII digits of a value that fits.
pub open spec fn spec_parse_count(s: Seq<char>) -> Option<usize> {
    if s.len() > 0 && (forall|i: int| 0 <= i < s.len() ==> is_ascii_digit(#[trigger] s[i])) && digits_value(s)
        <= usize::MAX {
        Some(digits_value(s) as usize)
    } else {
        None
    }
}

/// Reads a count of ASCII digits.
pub fn parse_count(s: &str) -> (r: Option<usize>)
    ensures
        r == spec_parse_count(s@),
{
    let n = s.unicode_len();
    if n == 0 {
        return None;
    }
    let mut value: usize = 0;
    let mut i: usize = 0;
    while i < n
        invariant
            n == s@.len(),
            i <= n,
            forall|j: int| 0 <= j < i ==> is_ascii_digit(#[trigger] s@[j]),
            value == digits_value(s@.take(i as int)),
        decreases n - i,
    {
        let c = s.get_char(i);
        let code = c as u32;
        proof {
            assert(s@.take(i + 1).drop_last() =~= s@.take(i as int));
        }
        if code < 48 || code > 57 {
            assert(!is_ascii_digit(s@[i as int]));
            return None;
        }
        let d = (code - 48) as usize;
        if value > (usize::MAX - d) / 10 {
            proof {
                lemma_digits_grow(s@, i as int + 1, n as int);
                assert(s@.take(n as int) =~= s@);
                assert(s@.take(i + 1).last() == c);
                assert(digits_value(s@.take(i + 1)) == value * 10 + d);
            }
            assert(digits_value(s@.take(i + 1)) > usize::MAX) by (nonlinear_arith)
                requires
                    digits_value(s@.take(i + 1)) == value * 10 + d,
                    value > (usize::MAX - d) / 10,
                    d <= 9;
            return None;
        }
        value = value * 10 + d;
        i = i + 1;
    }
    assert(s@.take(n as int) =~= s@);
    Some(value)
}

/// A longer run of digits is worth at least as much as its start.
proof fn lemma_digits_grow(s: Seq<char>, i: int, n: int)
    requires
        0 <= i <= n <= s.len(),
    ensures
        digits_value(s.take(i)) <= digits_value(s.take(n)),
    decreases n - i,
{
    if i < n {
        lemma_digits_grow(s, i, n - 1);
        assert(s.take(n).drop_last() =~= s.take(n - 1));
    }
}

/// Group `i` of a match, or nothing when the match has fewer groups.
pub open spec fn group(c: Seq<Option<Seq<char>>>, i: int) -> Option<Seq<char>> {
    if 0 <= i < c.len() {
        c[i]
    } else {
        None
    }
}

pub open spec fn either(a: Option<Seq<char>>, b: Option<Seq<char>>) -> Option<Seq<char>> {
    if a is Some {
        a
    } else {
        b
    }
}

/// The key of the card that a line names: by set and collector number when
/// both are given, by name and set when only the set is, by name otherwise.
pub open spec fn line_key(c: Seq<Option<Seq<char>>>) -> IdentKey
    recommends
        group(c, 4) is Some,
{
    let name = group(c, 4).unwrap();
    let set = either(group(c, 2), group(c, 5));
    let number = either(group(c, 3), group(c, 6));
    match set {
        Some(s) => match number {
            Some(n) => IdentKey::CollectorNumberSet(folded(n), folded(s)),
            None => IdentKey::NameSet(folded(name), folded(s)),
        },
        None => IdentKey::Name(folded(name)),
    }
}

/// The deck that the matches spell, line after line, or `None` when a
/// count does not read. Lines without a count or a name, and lines with a
/// count of zero, add nothing; a later line for the same card replaces its
/// count.
pub open spec fn deck_of_lines(caps: Seq<Seq<Option<Seq<char>>>>) -> Option<Map<IdentKey, usize>>
    decreases caps.len(),
{
    if caps.len() == 0 {
        Some(Map::empty())
    } else {
        let c = caps.last();
        match deck_of_lines(caps.drop_last()) {
            None => None,
            Some(m) => match group(c, 1) {
                None => Some(m),
                Some(digits) => match spec_parse_count(digits) {
                    None => None,
                    Some(n) => if n == 0 || group(c, 4) is None {
                        Some(m)
                    } else {
                        Some(m.insert(line_key(c), n))
                    },
                },
            },
        }
    }
}

fn group_of(c: &Vec<Option<String>>, i: usize) -> (r: Option<String>)
    ensures
        (match r {
            Some(s) => Some(s@),
            None => None,
        }) == group(c@.map_values(|g: Option<String>| match g {
            Some(s) => Some(s@),
            None => None,
        }), i as int),
{
    if i < c.len() {
        match &c[i] {
            Some(s) => Some(s.clone()),
            None => None,
        }
    } else {
        None
    }
}

/// The deck that the matches of the line pattern spell; see `deck_of_lines`.
pub fn deck_list_from_captures(caps: &Vec<Vec<Option<String>>>) -> (r: Result<DeckList, DeckParseError>)
    ensures
        r is Ok <==> deck_of_lines(captures_view(caps@)) is Some,
        r matches Ok(d) ==> d.wf() && Some(d@) == deck_of_lines(captures_view(caps@)),
{
    let ghost all = captures_view(caps@);
    let mut deck = DeckList::new();
    let mut i: usize = 0;
    while i < caps.len()
        invariant
            all == captures_view(caps@),
            i <= caps@.len(),
            deck.wf(),
            deck_of_lines(all.take(i as int)) == Some(deck@),
        decreases caps@.len() - i,
    {
        let c = &caps[i];
        let ghost cv = all[i as int];
        proof {
            assert(all.take(i + 1).drop_last() =~= all.take(i as int));
            assert(all.take(i + 1).last() == cv);
        }
        let count = group_of(c, 1);
        if let Some(digits) = count {
            let n = match parse_count(digits.as_str()) {
                Some(n) => n,
                None => {
                    proof {
                        lemma_deck_of_lines_none(all, i as int + 1);
                    }
                    return Err(DeckParseError::InvalidCount(digits));
                },
            };
            let name = group_of(c, 4);
            if let Some(name) = name {
                if n > 0 {
                    let set = match group_of(c, 2) {
                        Some(s) => Some(s),
                        None => group_of(c, 5),
                    };
                    let number = match group_of(c, 3) {
                        Some(s) => Some(s),
                        None => group_of(c, 6),
                    };
                    let ident = match set {
                        Some(set) => match number {
                            Some(collector_number) => CollectionCardIdentifier::CollectorNumberSet { collector_number, set },
                            None => CollectionCardIdentifier::NameSet { name, set },
                        },
                        None => CollectionCardIdentifier::Name { name },
                    };
                    assert(ident.key() == line_key(cv));
                    deck.insert(ident, n);
                }
            }
        }
        i = i + 1;
    }
    assert(all.take(i as int) =~= all);
    Ok(deck)
}

/// Once a prefix fails to read, so does every longer one.
proof fn lemma_deck_of_lines_none(caps: Seq<Seq<Option<Seq<char>>>>, i: int)
    requires
        0 <= i <= caps.len(),
        deck_of_lines(caps.take(i)) is None,
    ensures
        deck_of_lines(caps) is None,
    decreases caps.len() - i,
{
    if i < caps.len() {
        assert(caps.take(i + 1).drop_last() =~= caps.take(i));
        lemma_deck_of_lines_none(caps, i + 1);
    } else {
        assert(caps.take(i) =~= caps);
    }
}

/// Reads a deck list written as text; see `DECK_LINE_PATTERN` and
/// `deck_of_lines`.
pub fn parse_txt_data(txt_data: &str) -> (r: Result<DeckList, DeckParseError>)
    ensures
        r matches Ok(d) ==> d.wf() && Some(d@) == deck_of_lines(regex_captures(DECK_LINE_PATTERN@, txt_data@)),
        r matches Err(DeckParseError::InvalidCount(_)) ==> deck_of_lines(regex_captures(DECK_LINE_PATTERN@, txt_data@)) is None,
{
    match all_captures(DECK_LINE_PATTERN, txt_data) {
        Ok(caps) => deck_list_from_captures(&caps),
        Err(message) => Err(DeckParseError::InvalidPattern(message)),
    }
}

} // verus!
