//! The executable encoder, proved against the model in [`crate::model`].

use vstd::prelude::*;
use vstd::string::StrSliceExecFns;
use vstd::string::StringExecFns;

use crate::model::code_of;
use crate::model::codes_from;
use crate::model::collapse;
use crate::model::collapsed_of;
use crate::model::is_code_char;
use crate::model::is_initial_c_follower;
use crate::model::is_medial_c_follower;
use crate::model::is_vowel;
use crate::model::lower_char;
use crate::model::lower_seq;
use crate::model::next_initial_s;
use crate::model::next_last;
use crate::model::phonetic_code;
use crate::model::prune_from;

verus! {

/// Whether an optional lookahead or lookback character is a given letter.
fn opt_is(o: Option<char>, x: char) -> (b: bool)
    ensures
        b == (o == Some(x)),
{
    match o {
        Some(y) => y == x,
        None => false,
    }
}

fn is_vowel_char(c: char) -> (b: bool)
    ensures
        b == is_vowel(c),
{
    c == 'a' || c == 'e' || c == 'i' || c == 'j' || c == 'o' || c == 'u' || c == 'y' || c == 'ä'
        || c == 'ö' || c == 'ü'
}

fn follows_initial_c(next: Option<char>) -> (b: bool)
    ensures
        b == (next matches Some(n) && is_initial_c_follower(n)),
{
    match next {
        Some(n) => n == 'a' || n == 'h' || n == 'k' || n == 'l' || n == 'o' || n == 'q' || n == 'r'
            || n == 'u' || n == 'x',
        None => false,
    }
}

fn follows_medial_c(next: Option<char>) -> (b: bool)
    ensures
        b == (next matches Some(n) && is_medial_c_follower(n)),
{
    match next {
        Some(n) => n == 'a' || n == 'h' || n == 'k' || n == 'o' || n == 'q' || n == 'u' || n == 'x',
        None => false,
    }
}

/// The lowercase form of one character, as `lower_char` gives it.
fn to_lower(c: char) -> (r: char)
    ensures
        r == lower_char(c),
{
    if c == 'A' { 'a' }
    else if c == 'B' { 'b' }
    else if c == 'C' { 'c' }
    else if c == 'D' { 'd' }
    else if c == 'E' { 'e' }
    else if c == 'F' { 'f' }
    else if c == 'G' { 'g' }
    else if c == 'H' { 'h' }
    else if c == 'I' { 'i' }
    else if c == 'J' { 'j' }
    else if c == 'K' { 'k' }
    else if c == 'L' { 'l' }
    else if c == 'M' { 'm' }
    else if c == 'N' { 'n' }
    else if c == 'O' { 'o' }
    else if c == 'P' { 'p' }
    else if c == 'Q' { 'q' }
    else if c == 'R' { 'r' }
    else if c == 'S' { 's' }
    else if c == 'T' { 't' }
    else if c == 'U' { 'u' }
    else if c == 'V' { 'v' }
    else if c == 'W' { 'w' }
    else if c == 'X' { 'x' }
    else if c == 'Y' { 'y' }
    else if c == 'Z' { 'z' }
    else if c == 'Ä' { 'ä' }
    else if c == 'Ö' { 'ö' }
    else if c == 'Ü' { 'ü' }
    else if c == 'ẞ' { 'ß' }
    else { c }
}

/// The characters of the input, lowercased one by one.
fn lower_chars(word: &str) -> (v: Vec<char>)
    ensures
        v@ == lower_seq(word@),
{
    let n: usize = word.unicode_len();
    let mut v: Vec<char> = Vec::new();
    let mut i: usize = 0;
    while i < n
        invariant
            i <= n,
            n == word@.len(),
            v@.len() == i,
            forall|j: int| 0 <= j < i ==> v@[j] == lower_char(word@[j]),
        decreases n - i,
    {
        let c = word.get_char(i);
        v.push(to_lower(c));
        i = i + 1;
    }
    proof {
        assert(v@ =~= lower_seq(word@));
    }
    v
}

/// Appends the digits one character contributes to the raw stream.
fn push_code(out: &mut Vec<char>, c: char, next: Option<char>, last: Option<char>, initial_s: bool)
    ensures
        final(out)@ == old(out)@ + code_of(c, next, last, initial_s),
{
    if is_vowel_char(c) {
        out.push('0');
    } else if c == 'h' {
    } else if c == 'b' {
        out.push('1');
    } else if c == 'p' && !opt_is(next, 'h') {
        out.push('1');
    } else if (c == 'd' || c == 't') && !opt_is(next, 'c') && !opt_is(next, 's') && !opt_is(
        next,
        'z',
    ) {
        out.push('2');
    } else if c == 'f' || c == 'v' || c == 'w' {
        out.push('3');
    } else if c == 'p' {
        out.push('3');
    } else if c == 'g' || c == 'k' || c == 'q' {
        out.push('4');
    } else if c == 'c' && (last.is_none() || initial_s) && follows_initial_c(next) {
        out.push('4');
    } else if c == 'c' && !opt_is(last, 's') && !opt_is(last, 'z') && follows_medial_c(next) {
        out.push('4');
    } else if c == 'x' && !opt_is(last, 'c') && !opt_is(last, 'k') && !opt_is(last, 'q') {
        out.push('4');
        out.push('8');
    } else if c == 'l' {
        out.push('5');
    } else if c == 'm' || c == 'n' {
        out.push('6');
    } else if c == 'r' {
        out.push('7');
    } else if c == 's' || c == 'z' || c == 'ß' || c == 'c' || c == 'd' || c == 't' || c == 'x' {
        out.push('8');
    } else if c == ' ' {
        out.push(' ');
    }
    proof {
        assert(out@ =~= old(out)@ + code_of(c, next, last, initial_s));
    }
}

/// The classifier pass: the raw digit and blank stream of a lowercased
/// sequence, with the previous-letter and initial-s state threaded through.
fn classify(low: &Vec<char>) -> (raw: Vec<char>)
    ensures
        raw@ == codes_from(low@, None, false),
{
    let n: usize = low.len();
    let mut raw: Vec<char> = Vec::new();
    let mut last: Option<char> = None;
    let mut initial_s: bool = false;
    let mut i: usize = 0;
    proof {
        assert(low@.skip(0) =~= low@);
        assert(raw@ + codes_from(low@, None, false) =~= codes_from(low@, None, false));
    }
    while i < n
        invariant
            i <= n,
            n == low@.len(),
            codes_from(low@, None, false) == raw@ + codes_from(low@.skip(i as int), last, initial_s),
        decreases n - i,
    {
        let c = low[i];
        let next: Option<char> = if i + 1 < n {
            Some(low[i + 1])
        } else {
            None
        };
        proof {
            let suf = low@.skip(i as int);
            assert(suf[0] == low@[i as int]);
            if i + 1 < n {
                assert(suf[1] == low@[i as int + 1]);
            }
            assert(suf.drop_first() =~= low@.skip(i as int + 1));
            assert(codes_from(suf, last, initial_s) == code_of(c, next, last, initial_s)
                + codes_from(
                low@.skip(i as int + 1),
                next_last(c, last),
                next_initial_s(c, last, initial_s),
            ));
        }
        let ghost raw_before = raw@;
        push_code(&mut raw, c, next, last, initial_s);
        proof {
            assert(raw_before + (code_of(c, next, last, initial_s) + codes_from(
                low@.skip(i as int + 1),
                next_last(c, last),
                next_initial_s(c, last, initial_s),
            )) =~= raw@ + codes_from(
                low@.skip(i as int + 1),
                next_last(c, last),
                next_initial_s(c, last, initial_s),
            ));
        }
        if c == ' ' {
            last = None;
        } else {
            initial_s = last.is_none() && c == 's';
            last = Some(c);
        }
        i = i + 1;
    }
    proof {
        assert(low@.skip(n as int) =~= Seq::<char>::empty());
        assert(raw@ + Seq::<char>::empty() =~= raw@);
    }
    raw
}

/// The collapser pass: a character of the raw stream is kept exactly when
/// the character after it differs.
fn collapse_repeats(raw: &Vec<char>) -> (out: Vec<char>)
    ensures
        out@ == collapse(raw@),
{
    let n: usize = raw.len();
    let mut out: Vec<char> = Vec::new();
    let mut i: usize = 0;
    proof {
        assert(raw@.skip(0) =~= raw@);
        assert(out@ + collapse(raw@) =~= collapse(raw@));
    }
    while i < n
        invariant
            i <= n,
            n == raw@.len(),
            collapse(raw@) == out@ + collapse(raw@.skip(i as int)),
        decreases n - i,
    {
        let c = raw[i];
        proof {
            let suf = raw@.skip(i as int);
            assert(suf[0] == raw@[i as int]);
            if i + 1 < n {
                assert(suf[1] == raw@[i as int + 1]);
            }
            assert(suf.drop_first() =~= raw@.skip(i as int + 1));
        }
        if i + 1 < n && raw[i + 1] == c {
        } else {
            let ghost out_before = out@;
            out.push(c);
            proof {
                assert(out_before + (seq![c] + collapse(raw@.skip(i as int + 1))) =~= out@
                    + collapse(raw@.skip(i as int + 1)));
            }
        }
        i = i + 1;
    }
    proof {
        assert(raw@.skip(n as int) =~= Seq::<char>::empty());
        assert(out@ + Seq::<char>::empty() =~= out@);
    }
    out
}

/// Appends one finished code character to the result string.
fn append_code(s: &mut String, c: char)
    requires
        is_code_char(c),
    ensures
        final(s)@ == old(s)@.push(c),
{
    if c == '0' {
        s.append("0");
        proof {
            reveal_strlit("0");
            assert(s@ =~= old(s)@.push(c));
        }
    } else if c == '1' {
        s.append("1");
        proof {
            reveal_strlit("1");
            assert(s@ =~= old(s)@.push(c));
        }
    } else if c == '2' {
        s.append("2");
        proof {
            reveal_strlit("2");
            assert(s@ =~= old(s)@.push(c));
        }
    } else if c == '3' {
        s.append("3");
        proof {
            reveal_strlit("3");
            assert(s@ =~= old(s)@.push(c));
        }
    } else if c == '4' {
        s.append("4");
        proof {
            reveal_strlit("4");
            assert(s@ =~= old(s)@.push(c));
        }
    } else if c == '5' {
        s.append("5");
        proof {
            reveal_strlit("5");
            assert(s@ =~= old(s)@.push(c));
        }
    } else if c == '6' {
        s.append("6");
        proof {
            reveal_strlit("6");
            assert(s@ =~= old(s)@.push(c));
        }
    } else if c == '7' {
        s.append("7");
        proof {
            reveal_strlit("7");
            assert(s@ =~= old(s)@.push(c));
        }
    } else if c == '8' {
        s.append("8");
        proof {
            reveal_strlit("8");
            assert(s@ =~= old(s)@.push(c));
        }
    } else {
        s.append(" ");
        proof {
            reveal_strlit(" ");
            assert(c == ' ');
            assert(s@ =~= old(s)@.push(c));
        }
    }
}

/// The pruner pass: drops every `'0'` except one kept while the result is
/// still empty, and builds the final string.
fn prune_zeros(col: &Vec<char>) -> (r: String)
    requires
        forall|j: int| 0 <= j < col@.len() ==> is_code_char(col@[j]),
    ensures
        r@ == prune_from(col@, false),
{
    let n: usize = col.len();
    let mut r = String::new();
    let mut kept_any: bool = false;
    let mut i: usize = 0;
    proof {
        assert(col@.skip(0) =~= col@);
        assert(r@ + prune_from(col@, false) =~= prune_from(col@, false));
    }
    while i < n
        invariant
            i <= n,
            n == col@.len(),
            forall|j: int| 0 <= j < col@.len() ==> is_code_char(col@[j]),
            prune_from(col@, false) == r@ + prune_from(col@.skip(i as int), kept_any),
        decreases n - i,
    {
        let c = col[i];
        proof {
            let suf = col@.skip(i as int);
            assert(suf[0] == col@[i as int]);
            assert(suf.drop_first() =~= col@.skip(i as int + 1));
        }
        if c == '0' && !kept_any {
            let ghost r_before = r@;
            append_code(&mut r, c);
            kept_any = true;
            proof {
                assert(r_before + (seq!['0'] + prune_from(col@.skip(i as int + 1), true)) =~= r@
                    + prune_from(col@.skip(i as int + 1), true));
            }
        } else if c != '0' {
            let ghost r_before = r@;
            append_code(&mut r, c);
            kept_any = true;
            proof {
                assert(r_before + (seq![c] + prune_from(col@.skip(i as int + 1), true)) =~= r@
                    + prune_from(col@.skip(i as int + 1), true));
            }
        }
        i = i + 1;
    }
    proof {
        assert(col@.skip(n as int) =~= Seq::<char>::empty());
        assert(r@ + Seq::<char>::empty() =~= r@);
    }
    r
}

/// The Cologne phonetics code of a text: each word's sound, written as
/// digits `'0'` through `'8'`, with one blank per word boundary,
/// no directly repeated character, and no `'0'` after the first position.
///
/// Unrecognized characters contribute nothing; the function is total and
/// never fails.
pub fn calculate(word: &str) -> (r: String)
    ensures
        r@ == phonetic_code(word@),
{
    let low = lower_chars(word);
    let raw = classify(&low);
    let col = collapse_repeats(&raw);
    proof {
        crate::laws::lemma_codes_from_chars(low@, None, false);
        crate::laws::lemma_collapse_chars(raw@);
        assert(col@ == collapsed_of(word@));
    }
    prune_zeros(&col)
}

} // verus!
