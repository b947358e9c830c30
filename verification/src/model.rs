//! The mathematical model of the Cologne phonetics code.
//!
//! The encoding runs in three stages over a lowercased character sequence:
//! a classifier that maps each character to zero, one or two digits
//! (`codes_from`), a pass that removes directly repeated characters
//! (`collapse`), and a pass that removes every `'0'` except a leading one
//! (`prune_from`).  `phonetic_code` composes the stages; it is the
//! specification that the executable encoder is proved against.

use vstd::prelude::*;

verus! {

/// Characters that may appear in a finished code: the digits `'0'` through
/// `'8'`, and the blank that separates the codes of two words.
pub open spec fn is_code_char(c: char) -> bool {
    c == '0' || c == '1' || c == '2' || c == '3' || c == '4' || c == '5' || c == '6' || c == '7'
        || c == '8' || c == ' '
}

/// Letters that stand for a vowel sound; each is mapped to `'0'`.
pub open spec fn is_vowel(c: char) -> bool {
    c == 'a' || c == 'e' || c == 'i' || c == 'j' || c == 'o' || c == 'u' || c == 'y' || c == 'ä'
        || c == 'ö' || c == 'ü'
}

/// Letters before which a `c` at the start of a word is mapped to `'4'`.
pub open spec fn is_initial_c_follower(c: char) -> bool {
    c == 'a' || c == 'h' || c == 'k' || c == 'l' || c == 'o' || c == 'q' || c == 'r' || c == 'u'
        || c == 'x'
}

/// Letters before which a `c` inside a word is mapped to `'4'`,
/// unless the previous letter was `s` or `z`.
pub open spec fn is_medial_c_follower(c: char) -> bool {
    c == 'a' || c == 'h' || c == 'k' || c == 'o' || c == 'q' || c == 'u' || c == 'x'
}

/// The lowercase form of a character, for the letters the encoding
/// distinguishes: the ASCII letters, the umlauts and the sharp s.
/// Every other character is left unchanged.
pub open spec fn lower_char(c: char) -> char {
    if c == 'A' { 'a' }
    else if c == 'B' { 'b' }
    else if c == 'C' { 'c' }
    else if c == 'D' { 'd' }
    else if c == 'E' { 'e' }
    else if c == 'F' { 'f' }
    else if c == 'G' { 'g' }
    else if c == 'H' { 'h' }
    else if c == 'I' { 'i' }
    else if c == 'J' { 'j' }
    else if c == 'K' { 'k' }
    else if c == 'L' { 'l' }
    else if c == 'M' { 'm' }
    else if c == 'N' { 'n' }
    else if c == 'O' { 'o' }
    else if c == 'P' { 'p' }
    else if c == 'Q' { 'q' }
    else if c == 'R' { 'r' }
    else if c == 'S' { 's' }
    else if c == 'T' { 't' }
    else if c == 'U' { 'u' }
    else if c == 'V' { 'v' }
    else if c == 'W' { 'w' }
    else if c == 'X' { 'x' }
    else if c == 'Y' { 'y' }
    else if c == 'Z' { 'z' }
    else if c == 'Ä' { 'ä' }
    else if c == 'Ö' { 'ö' }
    else if c == 'Ü' { 'ü' }
    else if c == 'ẞ' { 'ß' }
    else { c }
}

/// The uppercase form of a character, for the same letters.
/// Every other character is left unchanged.
pub open spec fn upper_char(c: char) -> char {
    if c == 'a' { 'A' }
    else if c == 'b' { 'B' }
    else if c == 'c' { 'C' }
    else if c == 'd' { 'D' }
    else if c == 'e' { 'E' }
    else if c == 'f' { 'F' }
    else if c == 'g' { 'G' }
    else if c == 'h' { 'H' }
    else if c == 'i' { 'I' }
    else if c == 'j' { 'J' }
    else if c == 'k' { 'K' }
    else if c == 'l' { 'L' }
    else if c == 'm' { 'M' }
    else if c == 'n' { 'N' }
    else if c == 'o' { 'O' }
    else if c == 'p' { 'P' }
    else if c == 'q' { 'Q' }
    else if c == 'r' { 'R' }
    else if c == 's' { 'S' }
    else if c == 't' { 'T' }
    else if c == 'u' { 'U' }
    else if c == 'v' { 'V' }
    else if c == 'w' { 'W' }
    else if c == 'x' { 'X' }
    else if c == 'y' { 'Y' }
    else if c == 'z' { 'Z' }
    else if c == 'ä' { 'Ä' }
    else if c == 'ö' { 'Ö' }
    else if c == 'ü' { 'Ü' }
    else if c == 'ß' { 'ẞ' }
    else { c }
}

/// A sequence, lowercased character by character.
pub open spec fn lower_seq(s: Seq<char>) -> Seq<char> {
    s.map_values(|c: char| lower_char(c))
}

/// A sequence, uppercased character by character.
pub open spec fn upper_seq(s: Seq<char>) -> Seq<char> {
    s.map_values(|c: char| upper_char(c))
}

/// The digits one lowercased character contributes, given one character of
/// lookahead (`next`), the previous letter of the current word (`last`,
/// `None` at a word start), and whether the current word began with an `s`
/// and the scan is still at its second character (`initial_s`).  The guards
/// are tried in order; the first match decides.
pub open spec fn code_of(c: char, next: Option<char>, last: Option<char>, initial_s: bool) -> Seq<
    char,
> {
    if is_vowel(c) {
        seq!['0']
    } else if c == 'h' {
        Seq::<char>::empty()
    } else if c == 'b' {
        seq!['1']
    } else if c == 'p' && next != Some('h') {
        seq!['1']
    } else if (c == 'd' || c == 't') && next != Some('c') && next != Some('s') && next != Some(
        'z',
    ) {
        seq!['2']
    } else if c == 'f' || c == 'v' || c == 'w' {
        seq!['3']
    } else if c == 'p' {
        seq!['3']
    } else if c == 'g' || c == 'k' || c == 'q' {
        seq!['4']
    } else if c == 'c' && (last is None || initial_s) && (next matches Some(n)
        && is_initial_c_follower(n)) {
        seq!['4']
    } else if c == 'c' && last != Some('s') && last != Some('z') && (next matches Some(n)
        && is_medial_c_follower(n)) {
        seq!['4']
    } else if c == 'x' && last != Some('c') && last != Some('k') && last != Some('q') {
        seq!['4', '8']
    } else if c == 'l' {
        seq!['5']
    } else if c == 'm' || c == 'n' {
        seq!['6']
    } else if c == 'r' {
        seq!['7']
    } else if c == 's' || c == 'z' || c == 'ß' || c == 'c' || c == 'd' || c == 't' || c == 'x' {
        seq!['8']
    } else if c == ' ' {
        seq![' ']
    } else {
        Seq::<char>::empty()
    }
}

/// The previous-letter state after one character: a blank opens a new word,
/// any other character becomes the new previous letter.
pub open spec fn next_last(c: char, last: Option<char>) -> Option<char> {
    if c == ' ' {
        None
    } else {
        Some(c)
    }
}

/// The initial-s state after one character: set exactly when a word-opening
/// `s` was just consumed, so that the next character still counts as
/// standing at the start of the word.  A blank leaves the flag as it is;
/// the character after the blank never reads it, because `last` is `None`
/// there.
pub open spec fn next_initial_s(c: char, last: Option<char>, initial_s: bool) -> bool {
    if c == ' ' {
        initial_s
    } else {
        last is None && c == 's'
    }
}

/// The classifier: the digits and blanks that a lowercased sequence
/// contributes, scanned left to right with one character of lookahead.
pub open spec fn codes_from(s: Seq<char>, last: Option<char>, initial_s: bool) -> Seq<char>
    decreases s.len(),
{
    if s.len() == 0 {
        Seq::<char>::empty()
    } else {
        let c = s[0];
        let next = if s.len() > 1 {
            Some(s[1])
        } else {
            None
        };
        code_of(c, next, last, initial_s) + codes_from(
            s.drop_first(),
            next_last(c, last),
            next_initial_s(c, last, initial_s),
        )
    }
}

/// The collapser: a character is kept exactly when the character after it
/// differs, so no two directly repeated characters survive.
pub open spec fn collapse(s: Seq<char>) -> Seq<char>
    decreases s.len(),
{
    if s.len() == 0 {
        Seq::<char>::empty()
    } else if s.len() > 1 && s[1] == s[0] {
        collapse(s.drop_first())
    } else {
        seq![s[0]] + collapse(s.drop_first())
    }
}

/// The pruner: every `'0'` is removed, except one met while nothing has
/// been kept yet.  `kept_any` says whether the output built so far is
/// non-empty; it starts out false, so only a `'0'` that leads the whole
/// result survives.
pub open spec fn prune_from(s: Seq<char>, kept_any: bool) -> Seq<char>
    decreases s.len(),
{
    if s.len() == 0 {
        Seq::<char>::empty()
    } else if s[0] == '0' && !kept_any {
        seq!['0'] + prune_from(s.drop_first(), true)
    } else if s[0] != '0' {
        seq![s[0]] + prune_from(s.drop_first(), true)
    } else {
        prune_from(s.drop_first(), kept_any)
    }
}

/// The raw digit stream of an input after lowercasing, classifying and
/// collapsing, before the zeros are pruned.
pub open spec fn collapsed_of(s: Seq<char>) -> Seq<char> {
    collapse(codes_from(lower_seq(s), None, false))
}

/// The Cologne phonetics code of an input sequence: lowercase, classify,
/// collapse repeats, prune zeros.
pub open spec fn phonetic_code(s: Seq<char>) -> Seq<char> {
    prune_from(collapsed_of(s), false)
}

} // verus!
