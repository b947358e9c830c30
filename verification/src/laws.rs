//! Properties of the encoding, stated over the model and proved once for
//! all inputs.

use vstd::prelude::*;

use crate::model::code_of;
use crate::model::codes_from;
use crate::model::collapse;
use crate::model::collapsed_of;
use crate::model::is_code_char;
use crate::model::lower_char;
use crate::model::lower_seq;
use crate::model::next_initial_s;
use crate::model::next_last;
use crate::model::phonetic_code;
use crate::model::prune_from;
use crate::model::upper_char;
use crate::model::upper_seq;

verus! {

/// Every character the classifier emits is a digit or a blank.
proof fn lemma_code_of_chars(c: char, next: Option<char>, last: Option<char>, initial_s: bool)
    ensures
        forall|j: int|
            0 <= j < code_of(c, next, last, initial_s).len() ==> is_code_char(
                #[trigger] code_of(c, next, last, initial_s)[j],
            ),
{
}

/// Every character of the raw classified stream is a digit or a blank.
pub(crate) proof fn lemma_codes_from_chars(s: Seq<char>, last: Option<char>, initial_s: bool)
    ensures
        forall|j: int|
            0 <= j < codes_from(s, last, initial_s).len() ==> is_code_char(
                #[trigger] codes_from(s, last, initial_s)[j],
            ),
    decreases s.len(),
{
    if s.len() == 0 {
    } else {
        let c = s[0];
        let next = if s.len() > 1 {
            Some(s[1])
        } else {
            None
        };
        let a = code_of(c, next, last, initial_s);
        let b = codes_from(
            s.drop_first(),
            next_last(c, last),
            next_initial_s(c, last, initial_s),
        );
        lemma_code_of_chars(c, next, last, initial_s);
        lemma_codes_from_chars(
            s.drop_first(),
            next_last(c, last),
            next_initial_s(c, last, initial_s),
        );
        assert forall|j: int|
            0 <= j < codes_from(s, last, initial_s).len() implies is_code_char(
            codes_from(s, last, initial_s)[j],
        ) by {
            assert(codes_from(s, last, initial_s) == a + b);
            if j < a.len() {
                assert((a + b)[j] == a[j]);
            } else {
                assert((a + b)[j] == b[j - a.len()]);
            }
        }
    }
}

/// The pruner keeps only characters of its input, so digits and blanks
/// stay digits and blanks.
proof fn lemma_prune_chars(s: Seq<char>, kept_any: bool)
    requires
        forall|j: int| 0 <= j < s.len() ==> is_code_char(#[trigger] s[j]),
    ensures
        forall|j: int|
            0 <= j < prune_from(s, kept_any).len() ==> is_code_char(
                #[trigger] prune_from(s, kept_any)[j],
            ),
    decreases s.len(),
{
    if s.len() == 0 {
    } else {
        assert forall|j: int| 0 <= j < s.drop_first().len() implies is_code_char(
            s.drop_first()[j],
        ) by {
            assert(s.drop_first()[j] == s[j + 1]);
        }
        if s[0] == '0' && !kept_any {
            lemma_prune_chars(s.drop_first(), true);
            assert forall|j: int| 0 <= j < prune_from(s, kept_any).len() implies is_code_char(
                prune_from(s, kept_any)[j],
            ) by {
                assert(prune_from(s, kept_any) == seq!['0'] + prune_from(s.drop_first(), true));
                if j == 0 {
                    assert(prune_from(s, kept_any)[0] == '0');
                } else {
                    assert(prune_from(s, kept_any)[j] == prune_from(s.drop_first(), true)[j - 1]);
                }
            }
        } else if s[0] != '0' {
            lemma_prune_chars(s.drop_first(), true);
            assert forall|j: int| 0 <= j < prune_from(s, kept_any).len() implies is_code_char(
                prune_from(s, kept_any)[j],
            ) by {
                assert(prune_from(s, kept_any) == seq![s[0]] + prune_from(s.drop_first(), true));
                if j == 0 {
                    assert(prune_from(s, kept_any)[0] == s[0]);
                } else {
                    assert(prune_from(s, kept_any)[j] == prune_from(s.drop_first(), true)[j - 1]);
                }
            }
        } else {
            lemma_prune_chars(s.drop_first(), kept_any);
        }
    }
}

/// The collapser keeps only characters of its input, so digits and blanks
/// stay digits and blanks.
pub(crate) proof fn lemma_collapse_chars(s: Seq<char>)
    requires
        forall|j: int| 0 <= j < s.len() ==> is_code_char(#[trigger] s[j]),
    ensures
        forall|j: int| 0 <= j < collapse(s).len() ==> is_code_char(#[trigger] collapse(s)[j]),
    decreases s.len(),
{
    if s.len() == 0 {
    } else {
        assert forall|j: int| 0 <= j < s.drop_first().len() implies is_code_char(
            s.drop_first()[j],
        ) by {
            assert(s.drop_first()[j] == s[j + 1]);
        }
        lemma_collapse_chars(s.drop_first());
        if s.len() > 1 && s[1] == s[0] {
        } else {
            assert forall|j: int| 0 <= j < collapse(s).len() implies is_code_char(
                collapse(s)[j],
            ) by {
                assert(collapse(s) == seq![s[0]] + collapse(s.drop_first()));
                if j == 0 {
                    assert(collapse(s)[0] == s[0]);
                } else {
                    assert(collapse(s)[j] == collapse(s.drop_first())[j - 1]);
                }
            }
        }
    }
}

/// The result of an encoding holds nothing but the digits `'0'` through
/// `'8'` and blanks.
pub proof fn lemma_output_alphabet(s: Seq<char>)
    ensures
        forall|j: int|
            0 <= j < phonetic_code(s).len() ==> is_code_char(#[trigger] phonetic_code(s)[j]),
{
    lemma_codes_from_chars(lower_seq(s), None, false);
    lemma_collapse_chars(codes_from(lower_seq(s), None, false));
    lemma_prune_chars(collapsed_of(s), false);
}

/// After the pruner, no `'0'` stands anywhere but at the very front, and
/// not even there once something was already kept.
proof fn lemma_prune_no_zero(s: Seq<char>, kept_any: bool)
    ensures
        kept_any ==> forall|j: int|
            0 <= j < prune_from(s, kept_any).len() ==> #[trigger] prune_from(s, kept_any)[j]
                != '0',
        forall|j: int|
            1 <= j < prune_from(s, kept_any).len() ==> #[trigger] prune_from(s, kept_any)[j]
                != '0',
    decreases s.len(),
{
    if s.len() == 0 {
    } else if s[0] == '0' && !kept_any {
        lemma_prune_no_zero(s.drop_first(), true);
        assert forall|j: int| 1 <= j < prune_from(s, kept_any).len() implies prune_from(
            s,
            kept_any,
        )[j] != '0' by {
            assert(prune_from(s, kept_any) == seq!['0'] + prune_from(s.drop_first(), true));
            assert(prune_from(s, kept_any)[j] == prune_from(s.drop_first(), true)[j - 1]);
        }
    } else if s[0] != '0' {
        lemma_prune_no_zero(s.drop_first(), true);
        assert forall|j: int| 1 <= j < prune_from(s, kept_any).len() implies prune_from(
            s,
            kept_any,
        )[j] != '0' by {
            assert(prune_from(s, kept_any) == seq![s[0]] + prune_from(s.drop_first(), true));
            assert(prune_from(s, kept_any)[j] == prune_from(s.drop_first(), true)[j - 1]);
        }
        if kept_any {
            assert forall|j: int| 0 <= j < prune_from(s, kept_any).len() implies prune_from(
                s,
                kept_any,
            )[j] != '0' by {
                assert(prune_from(s, kept_any) == seq![s[0]] + prune_from(s.drop_first(), true));
                if j == 0 {
                    assert(prune_from(s, kept_any)[0] == s[0]);
                } else {
                    assert(prune_from(s, kept_any)[j] == prune_from(s.drop_first(), true)[j - 1]);
                }
            }
        }
    } else {
        lemma_prune_no_zero(s.drop_first(), kept_any);
    }
}

/// A `'0'` appears at most as the first character of a finished code,
/// never anywhere else, not even right after a blank.
pub proof fn lemma_zero_only_leading(s: Seq<char>)
    ensures
        forall|j: int| 1 <= j < phonetic_code(s).len() ==> #[trigger] phonetic_code(s)[j] != '0',
{
    lemma_prune_no_zero(collapsed_of(s), false);
}

/// No two directly neighbouring characters of a sequence are equal.
spec fn no_direct_repeats(m: Seq<char>) -> bool {
    forall|i: int| 0 <= i && i + 1 < m.len() ==> #[trigger] m[i] != m[i + 1]
}

/// No two directly neighbouring characters of a sequence are equal,
/// leaving blanks aside.
pub open spec fn no_repeats_but_blanks(m: Seq<char>) -> bool {
    forall|i: int| 0 <= i && i + 1 < m.len() ==> !(#[trigger] m[i] == m[i + 1] && m[i] != ' ')
}

/// No `'0'` that the pruner will drop stands between two equal characters
/// other than blanks.  Where this fails, dropping that `'0'` pulls the two
/// equal neighbours together.
pub open spec fn no_pruned_zero_between_repeats(m: Seq<char>) -> bool {
    forall|i: int|
        0 <= i && i + 2 < m.len() ==> !(m[i + 1] == '0' && #[trigger] m[i] == m[i + 2] && m[i]
            != ' ')
}

/// The collapser keeps a non-empty input non-empty and keeps its first
/// character.
proof fn lemma_collapse_first(s: Seq<char>)
    requires
        s.len() > 0,
    ensures
        collapse(s).len() > 0,
        collapse(s)[0] == s[0],
    decreases s.len(),
{
    if s.len() > 1 && s[1] == s[0] {
        lemma_collapse_first(s.drop_first());
        assert(s.drop_first()[0] == s[1]);
    } else {
        assert(collapse(s) == seq![s[0]] + collapse(s.drop_first()));
        assert(collapse(s)[0] == s[0]);
    }
}

/// The collapser leaves no two directly repeated characters at all.
proof fn lemma_collapse_no_repeats(s: Seq<char>)
    ensures
        no_direct_repeats(collapse(s)),
    decreases s.len(),
{
    if s.len() == 0 {
    } else if s.len() > 1 && s[1] == s[0] {
        lemma_collapse_no_repeats(s.drop_first());
    } else {
        lemma_collapse_no_repeats(s.drop_first());
        assert forall|i: int| 0 <= i && i + 1 < collapse(s).len() implies #[trigger] collapse(
            s,
        )[i] != collapse(s)[i + 1] by {
            assert(collapse(s) == seq![s[0]] + collapse(s.drop_first()));
            if i == 0 {
                assert(s.drop_first().len() > 0);
                lemma_collapse_first(s.drop_first());
                assert(collapse(s)[1] == collapse(s.drop_first())[0]);
                assert(collapse(s.drop_first())[0] == s.drop_first()[0]);
                assert(s.drop_first()[0] == s[1]);
            } else {
                assert(collapse(s)[i] == collapse(s.drop_first())[i - 1]);
                assert(collapse(s)[i + 1] == collapse(s.drop_first())[i]);
            }
        }
    }
}

/// On a stream without direct repeats and without a pruned `'0'` between
/// equal neighbours, the pruner run with something already kept leaves no
/// repeated characters but blanks; and what it keeps first is the stream's
/// first character, or, past a dropped leading `'0'`, its second.
proof fn lemma_prune_tail_no_repeats(m: Seq<char>)
    requires
        no_direct_repeats(m),
        no_pruned_zero_between_repeats(m),
    ensures
        no_repeats_but_blanks(prune_from(m, true)),
        prune_from(m, true).len() > 0 ==> (prune_from(m, true)[0] == m[0] || (m.len() > 1 && m[0]
            == '0' && prune_from(m, true)[0] == m[1])),
    decreases m.len(),
{
    if m.len() == 0 {
    } else {
        let t = m.drop_first();
        assert forall|i: int| 0 <= i && i + 1 < t.len() implies #[trigger] t[i] != t[i + 1] by {
            assert(t[i] == m[i + 1]);
            assert(t[i + 1] == m[i + 2]);
        }
        assert forall|i: int| 0 <= i && i + 2 < t.len() implies !(t[i + 1] == '0' && #[trigger] t[i]
            == t[i + 2] && t[i] != ' ') by {
            assert(t[i] == m[i + 1]);
            assert(t[i + 1] == m[i + 2]);
            assert(t[i + 2] == m[i + 3]);
        }
        lemma_prune_tail_no_repeats(t);
        if m[0] != '0' {
            assert(prune_from(m, true) == seq![m[0]] + prune_from(t, true));
            assert forall|i: int| 0 <= i && i + 1 < prune_from(m, true).len() implies !(#[trigger] prune_from(
                m,
                true,
            )[i] == prune_from(m, true)[i + 1] && prune_from(m, true)[i] != ' ') by {
                if i == 0 {
                    assert(prune_from(m, true)[0] == m[0]);
                    assert(prune_from(m, true)[1] == prune_from(t, true)[0]);
                    if prune_from(t, true)[0] == t[0] {
                        assert(t[0] == m[1]);
                    } else {
                        assert(t.len() > 1 && t[0] == '0' && prune_from(t, true)[0] == t[1]);
                        assert(t[1] == m[2]);
                        assert(!(m[1] == '0' && m[0] == m[2] && m[0] != ' '));
                    }
                } else {
                    assert(prune_from(m, true)[i] == prune_from(t, true)[i - 1]);
                    assert(prune_from(m, true)[i + 1] == prune_from(t, true)[i]);
                }
            }
        } else {
            assert(prune_from(m, true) == prune_from(t, true));
            if prune_from(t, true).len() > 0 {
                if t.len() > 0 && t[0] == '0' {
                    assert(m[0] == m[1]);
                    assert(false);
                }
                assert(prune_from(t, true)[0] == t[0]);
                assert(t[0] == m[1]);
            }
        }
    }
}

/// Same as `lemma_prune_tail_no_repeats`, for the pruner started fresh:
/// here the first character is kept whatever it is.
proof fn lemma_prune_no_repeats(m: Seq<char>)
    requires
        no_direct_repeats(m),
        no_pruned_zero_between_repeats(m),
    ensures
        no_repeats_but_blanks(prune_from(m, false)),
    decreases m.len(),
{
    if m.len() == 0 {
    } else {
        let t = m.drop_first();
        assert forall|i: int| 0 <= i && i + 1 < t.len() implies #[trigger] t[i] != t[i + 1] by {
            assert(t[i] == m[i + 1]);
            assert(t[i + 1] == m[i + 2]);
        }
        assert forall|i: int| 0 <= i && i + 2 < t.len() implies !(t[i + 1] == '0' && #[trigger] t[i]
            == t[i + 2] && t[i] != ' ') by {
            assert(t[i] == m[i + 1]);
            assert(t[i + 1] == m[i + 2]);
            assert(t[i + 2] == m[i + 3]);
        }
        lemma_prune_tail_no_repeats(t);
        assert(prune_from(m, false) == seq![m[0]] + prune_from(t, true));
        assert forall|i: int| 0 <= i && i + 1 < prune_from(m, false).len() implies !(#[trigger] prune_from(
            m,
            false,
        )[i] == prune_from(m, false)[i + 1] && prune_from(m, false)[i] != ' ') by {
            if i == 0 {
                assert(prune_from(m, false)[0] == m[0]);
                assert(prune_from(m, false)[1] == prune_from(t, true)[0]);
                if prune_from(t, true)[0] == t[0] {
                    assert(t[0] == m[1]);
                } else {
                    assert(t.len() > 1 && t[0] == '0' && prune_from(t, true)[0] == t[1]);
                    assert(t[1] == m[2]);
                    assert(!(m[1] == '0' && m[0] == m[2] && m[0] != ' '));
                }
            } else {
                assert(prune_from(m, false)[i] == prune_from(t, true)[i - 1]);
                assert(prune_from(m, false)[i + 1] == prune_from(t, true)[i]);
            }
        }
    }
}

/// No two directly neighbouring characters of a finished code are equal,
/// blanks aside — for every input whose collapsed digit stream has no
/// soon-pruned `'0'` standing between two equal characters.  Where one
/// does, the pruner pulls those two together ("Werkstatt" ends in two
/// equal digits this way), so that case is left out here.
pub proof fn lemma_no_adjacent_repeats(s: Seq<char>)
    requires
        no_pruned_zero_between_repeats(collapsed_of(s)),
    ensures
        no_repeats_but_blanks(phonetic_code(s)),
{
    lemma_collapse_no_repeats(codes_from(lower_seq(s), None, false));
    lemma_prune_no_repeats(collapsed_of(s));
}

/// An empty input encodes to an empty code.
pub proof fn lemma_empty_input()
    ensures
        phonetic_code(Seq::<char>::empty()) == Seq::<char>::empty(),
{
    assert(lower_seq(Seq::<char>::empty()).len() == 0);
    assert(codes_from(lower_seq(Seq::<char>::empty()), None, false).len() == 0);
    assert(collapsed_of(Seq::<char>::empty()).len() == 0);
}

/// A character lowercased after uppercasing comes out as it does
/// lowercased directly.
proof fn lemma_lower_of_upper(c: char)
    ensures
        lower_char(upper_char(c)) == lower_char(c),
{
}

/// Encoding is blind to letter case: a text encodes to the same code as
/// the same text with every letter uppercased.
pub proof fn lemma_case_insensitive(s: Seq<char>)
    ensures
        phonetic_code(upper_seq(s)) == phonetic_code(s),
{
    assert forall|j: int| 0 <= j < s.len() implies lower_char(#[trigger] upper_seq(s)[j])
        == lower_char(s[j]) by {
        lemma_lower_of_upper(s[j]);
    }
    assert(lower_seq(upper_seq(s)) =~= lower_seq(s));
}

/// The classifier started at a word boundary does not read the initial-s
/// flag: the first character sees no previous letter, and every later one
/// gets the flag computed afresh.
proof fn lemma_codes_initial_s_masked(v: Seq<char>, initial_s: bool)
    ensures
        codes_from(v, None, initial_s) == codes_from(v, None, false),
    decreases v.len(),
{
    if v.len() == 0 {
    } else {
        let c = v[0];
        let next = if v.len() > 1 {
            Some(v[1])
        } else {
            None
        };
        assert(code_of(c, next, None, initial_s) == code_of(c, next, None, false));
        if c == ' ' {
            lemma_codes_initial_s_masked(v.drop_first(), initial_s);
        }
    }
}

/// A blank as lookahead classifies a character as no lookahead at all
/// does: no rule's condition names the blank.
proof fn lemma_code_of_blank_peek(c: char, last: Option<char>, initial_s: bool)
    ensures
        code_of(c, Some(' '), last, initial_s) == code_of(c, None, last, initial_s),
{
}

/// A blank appended to the input appends one blank to the classified
/// stream.
proof fn lemma_codes_trailing_blank(u: Seq<char>, last: Option<char>, initial_s: bool)
    ensures
        codes_from(u + seq![' '], last, initial_s) == codes_from(u, last, initial_s) + seq![' '],
    decreases u.len(),
{
    let w = u + seq![' '];
    if u.len() == 0 {
        assert(w =~= seq![' ']);
        assert(code_of(' ', None, last, initial_s) == seq![' ']);
        assert(w.drop_first() =~= Seq::<char>::empty());
        assert(codes_from(w, last, initial_s) == seq![' '] + codes_from(
            Seq::<char>::empty(),
            None,
            initial_s,
        ));
        assert(seq![' '] + Seq::<char>::empty() =~= seq![' ']);
        assert(Seq::<char>::empty() + seq![' '] =~= seq![' ']);
    } else {
        let c = u[0];
        assert(w[0] == c);
        let next_u = if u.len() > 1 {
            Some(u[1])
        } else {
            None
        };
        if u.len() == 1 {
            assert(w[1] == ' ');
            lemma_code_of_blank_peek(c, last, initial_s);
        } else {
            assert(w[1] == u[1]);
        }
        assert(code_of(c, Some(w[1]), last, initial_s) == code_of(c, next_u, last, initial_s));
        assert(w.drop_first() =~= u.drop_first() + seq![' ']);
        lemma_codes_trailing_blank(
            u.drop_first(),
            next_last(c, last),
            next_initial_s(c, last, initial_s),
        );
        let a = code_of(c, next_u, last, initial_s);
        let b = codes_from(
            u.drop_first(),
            next_last(c, last),
            next_initial_s(c, last, initial_s),
        );
        assert(codes_from(w, last, initial_s) == a + (b + seq![' ']));
        assert(codes_from(u, last, initial_s) == a + b);
        assert(a + (b + seq![' ']) =~= (a + b) + seq![' ']);
    }
}

/// The classified stream splits at a blank: what comes after the blank is
/// classified as a fresh word, whatever state the first part ended in.
proof fn lemma_codes_split_at_blank(
    u: Seq<char>,
    v: Seq<char>,
    last: Option<char>,
    initial_s: bool,
)
    ensures
        codes_from(u + seq![' '] + v, last, initial_s) == codes_from(
            u + seq![' '],
            last,
            initial_s,
        ) + codes_from(v, None, false),
    decreases u.len(),
{
    let w = u + seq![' '] + v;
    if u.len() == 0 {
        assert(w =~= seq![' '] + v);
        let next = if w.len() > 1 {
            Some(w[1])
        } else {
            None
        };
        assert(w[0] == ' ');
        assert(code_of(' ', next, last, initial_s) == seq![' ']);
        assert(w.drop_first() =~= v);
        assert(codes_from(w, last, initial_s) == seq![' '] + codes_from(v, None, initial_s));
        lemma_codes_initial_s_masked(v, initial_s);
        assert(u + seq![' '] =~= seq![' ']);
        assert(code_of(' ', None, last, initial_s) == seq![' ']);
        assert(seq![' '].drop_first() =~= Seq::<char>::empty());
        assert(codes_from(seq![' '], last, initial_s) == seq![' '] + codes_from(
            Seq::<char>::empty(),
            None,
            initial_s,
        ));
        assert(seq![' '] + Seq::<char>::empty() =~= seq![' ']);
        assert(seq![' '] + codes_from(v, None, false) =~= (seq![' '] + Seq::<char>::empty())
            + codes_from(v, None, false));
    } else {
        let c = u[0];
        let w2 = u + seq![' '];
        assert(w[0] == c);
        assert(w2[0] == c);
        if u.len() == 1 {
            assert(w[1] == ' ');
            assert(w2[1] == ' ');
        } else {
            assert(w[1] == u[1]);
            assert(w2[1] == u[1]);
        }
        let next = Some(w[1]);
        assert(w.len() > 1);
        assert(w2.len() > 1);
        assert(w2[1] == w[1]);
        assert(w.drop_first() =~= u.drop_first() + seq![' '] + v);
        assert(w2.drop_first() =~= u.drop_first() + seq![' ']);
        lemma_codes_split_at_blank(
            u.drop_first(),
            v,
            next_last(c, last),
            next_initial_s(c, last, initial_s),
        );
        let a = code_of(c, next, last, initial_s);
        let b = codes_from(
            u.drop_first() + seq![' '],
            next_last(c, last),
            next_initial_s(c, last, initial_s),
        );
        let d = codes_from(v, None, false);
        assert(codes_from(w, last, initial_s) == a + (b + d));
        assert(codes_from(w2, last, initial_s) == a + b);
        assert(a + (b + d) =~= (a + b) + d);
    }
}

/// A character other than a blank never contributes a blank.
proof fn lemma_code_of_no_blank(c: char, next: Option<char>, last: Option<char>, initial_s: bool)
    requires
        c != ' ',
    ensures
        forall|j: int|
            0 <= j < code_of(c, next, last, initial_s).len() ==> #[trigger] code_of(
                c,
                next,
                last,
                initial_s,
            )[j] != ' ',
{
}

/// The classified stream of a text without blanks holds no blanks.
proof fn lemma_codes_no_blank(v: Seq<char>, last: Option<char>, initial_s: bool)
    requires
        forall|i: int| 0 <= i < v.len() ==> #[trigger] v[i] != ' ',
    ensures
        forall|j: int|
            0 <= j < codes_from(v, last, initial_s).len() ==> #[trigger] codes_from(
                v,
                last,
                initial_s,
            )[j] != ' ',
    decreases v.len(),
{
    if v.len() == 0 {
    } else {
        let c = v[0];
        let next = if v.len() > 1 {
            Some(v[1])
        } else {
            None
        };
        let a = code_of(c, next, last, initial_s);
        let b = codes_from(
            v.drop_first(),
            next_last(c, last),
            next_initial_s(c, last, initial_s),
        );
        lemma_code_of_no_blank(c, next, last, initial_s);
        assert forall|i: int| 0 <= i < v.drop_first().len() implies #[trigger] v.drop_first()[i]
            != ' ' by {
            assert(v.drop_first()[i] == v[i + 1]);
        }
        lemma_codes_no_blank(v.drop_first(), next_last(c, last), next_initial_s(c, last, initial_s));
        assert forall|j: int|
            0 <= j < codes_from(v, last, initial_s).len() implies #[trigger] codes_from(
            v,
            last,
            initial_s,
        )[j] != ' ' by {
            assert(codes_from(v, last, initial_s) == a + b);
            if j < a.len() {
                assert((a + b)[j] == a[j]);
            } else {
                assert((a + b)[j] == b[j - a.len()]);
            }
        }
    }
}

/// The collapser distributes over concatenation where the parts do not
/// meet in two equal characters.
proof fn lemma_collapse_append(x: Seq<char>, y: Seq<char>)
    requires
        x.len() > 0 && y.len() > 0 ==> x[x.len() - 1] != y[0],
    ensures
        collapse(x + y) == collapse(x) + collapse(y),
    decreases x.len(),
{
    let w = x + y;
    if x.len() == 0 {
        assert(w =~= y);
        assert(Seq::<char>::empty() + collapse(y) =~= collapse(y));
    } else if x.len() == 1 {
        assert(w[0] == x[0]);
        assert(x.drop_first() =~= Seq::<char>::empty());
        assert(collapse(x) == seq![x[0]] + collapse(Seq::<char>::empty()));
        assert(seq![x[0]] + Seq::<char>::empty() =~= seq![x[0]]);
        if y.len() == 0 {
            assert(w =~= x);
            assert(collapse(x) + Seq::<char>::empty() =~= collapse(x));
        } else {
            assert(w[1] == y[0]);
            assert(w[1] != w[0]);
            assert(w.drop_first() =~= y);
            assert(collapse(w) == seq![x[0]] + collapse(y));
        }
    } else {
        let t = x.drop_first();
        assert(w[0] == x[0]);
        assert(w[1] == x[1]);
        assert(w.drop_first() =~= t + y);
        assert(t.len() > 0);
        assert(t[t.len() - 1] == x[x.len() - 1]);
        assert(t[0] == x[1]);
        lemma_collapse_append(t, y);
        if x[1] == x[0] {
            assert(collapse(w) == collapse(t + y));
            assert(collapse(x) == collapse(t));
        } else {
            assert(collapse(w) == seq![x[0]] + collapse(t + y));
            assert(collapse(x) == seq![x[0]] + collapse(t));
            assert(seq![x[0]] + (collapse(t) + collapse(y)) =~= (seq![x[0]] + collapse(t))
                + collapse(y));
        }
    }
}

/// The pruner distributes over concatenation: the second part starts with
/// something already kept exactly when the first part kept anything.
proof fn lemma_prune_append(x: Seq<char>, y: Seq<char>, kept_any: bool)
    ensures
        prune_from(x + y, kept_any) == prune_from(x, kept_any) + prune_from(
            y,
            kept_any || prune_from(x, kept_any).len() > 0,
        ),
    decreases x.len(),
{
    let w = x + y;
    if x.len() == 0 {
        assert(w =~= y);
        assert(Seq::<char>::empty() + prune_from(y, kept_any) =~= prune_from(y, kept_any));
    } else {
        let t = x.drop_first();
        assert(w[0] == x[0]);
        assert(w.drop_first() =~= t + y);
        if x[0] == '0' && !kept_any {
            lemma_prune_append(t, y, true);
            assert(prune_from(w, kept_any) == seq!['0'] + prune_from(t + y, true));
            assert(prune_from(x, kept_any) == seq!['0'] + prune_from(t, true));
            assert(seq!['0'] + (prune_from(t, true) + prune_from(
                y,
                true || prune_from(t, true).len() > 0,
            )) =~= (seq!['0'] + prune_from(t, true)) + prune_from(
                y,
                true || prune_from(t, true).len() > 0,
            ));
        } else if x[0] != '0' {
            lemma_prune_append(t, y, true);
            assert(prune_from(w, kept_any) == seq![x[0]] + prune_from(t + y, true));
            assert(prune_from(x, kept_any) == seq![x[0]] + prune_from(t, true));
            assert(seq![x[0]] + (prune_from(t, true) + prune_from(
                y,
                true || prune_from(t, true).len() > 0,
            )) =~= (seq![x[0]] + prune_from(t, true)) + prune_from(
                y,
                true || prune_from(t, true).len() > 0,
            ));
        } else {
            lemma_prune_append(t, y, kept_any);
            assert(prune_from(w, kept_any) == prune_from(t + y, kept_any));
            assert(prune_from(x, kept_any) == prune_from(t, kept_any));
        }
    }
}

/// The pruner always keeps the first character of a fresh stream.
proof fn lemma_prune_first(m: Seq<char>)
    requires
        m.len() > 0,
    ensures
        prune_from(m, false).len() > 0,
        prune_from(m, false)[0] == m[0],
{
    if m[0] == '0' {
        assert(prune_from(m, false) == seq!['0'] + prune_from(m.drop_first(), true));
    } else {
        assert(prune_from(m, false) == seq![m[0]] + prune_from(m.drop_first(), true));
    }
}

/// On a stream that does not begin with `'0'`, the pruner gives the same
/// result whether or not something was kept before it.
proof fn lemma_prune_fresh_like_started(m: Seq<char>)
    requires
        m.len() > 0 ==> m[0] != '0',
    ensures
        prune_from(m, true) == prune_from(m, false),
{
    if m.len() > 0 {
        assert(prune_from(m, true) == seq![m[0]] + prune_from(m.drop_first(), true));
        assert(prune_from(m, false) == seq![m[0]] + prune_from(m.drop_first(), true));
    }
}

/// Lowercasing turns no character into a blank and no blank into anything
/// else.
proof fn lemma_lower_keeps_blank(c: char)
    ensures
        (lower_char(c) == ' ') == (c == ' '),
{
}

/// Two blank-free words joined by a blank encode to the two codes joined
/// by a blank — whenever the second word's code does not begin with `'0'`.
/// Where it does, the pruner drops that leading `'0'` in the joined text,
/// because the result already holds the first word's code and the blank;
/// that case is left out here.
pub proof fn lemma_words_encode_separately(u: Seq<char>, v: Seq<char>)
    requires
        forall|i: int| 0 <= i < u.len() ==> #[trigger] u[i] != ' ',
        forall|i: int| 0 <= i < v.len() ==> #[trigger] v[i] != ' ',
        phonetic_code(v).len() > 0 ==> phonetic_code(v)[0] != '0',
    ensures
        phonetic_code(u + seq![' '] + v) == phonetic_code(u) + seq![' '] + phonetic_code(v),
{
    let lu = lower_seq(u);
    let lv = lower_seq(v);
    assert forall|i: int| 0 <= i < lu.len() implies #[trigger] lu[i] != ' ' by {
        lemma_lower_keeps_blank(u[i]);
    }
    assert forall|i: int| 0 <= i < lv.len() implies #[trigger] lv[i] != ' ' by {
        lemma_lower_keeps_blank(v[i]);
    }
    assert(lower_seq(u + seq![' '] + v) =~= lu + seq![' '] + lv);

    let cu = codes_from(lu, None, false);
    let cb = codes_from(lv, None, false);
    lemma_codes_split_at_blank(lu, lv, None, false);
    lemma_codes_trailing_blank(lu, None, false);
    assert(codes_from(lu + seq![' '] + lv, None, false) == (cu + seq![' ']) + cb);

    lemma_codes_no_blank(lu, None, false);
    lemma_codes_no_blank(lv, None, false);

    assert((cu + seq![' ']) + cb =~= cu + (seq![' '] + cb));
    assert((seq![' '] + cb)[0] == ' ');
    lemma_collapse_append(cu, seq![' '] + cb);
    lemma_collapse_append(seq![' '], cb);
    assert(seq![' '].drop_first() =~= Seq::<char>::empty());
    assert(collapse(seq![' ']) == seq![' '] + collapse(Seq::<char>::empty()));
    assert(seq![' '] + Seq::<char>::empty() =~= seq![' ']);
    let du = collapse(cu);
    let db = collapse(cb);
    assert(collapse(seq![' '] + cb) == seq![' '] + db);
    assert(collapse(cu + (seq![' '] + cb)) == du + (seq![' '] + db));

    lemma_prune_append(du, seq![' '] + db, false);
    let started = false || prune_from(du, false).len() > 0;
    assert((seq![' '] + db)[0] == ' ');
    assert((seq![' '] + db).drop_first() =~= db);
    assert(prune_from(seq![' '] + db, started) == seq![' '] + prune_from(db, true));

    if db.len() > 0 {
        lemma_prune_first(db);
        assert(phonetic_code(v)[0] == db[0]);
    }
    lemma_prune_fresh_like_started(db);
    assert(prune_from(db, true) == phonetic_code(v));

    assert(collapsed_of(u + seq![' '] + v) == du + (seq![' '] + db));
    assert(phonetic_code(u + seq![' '] + v) == prune_from(du, false) + (seq![' '] + prune_from(
        db,
        true,
    )));
    assert(prune_from(du, false) + (seq![' '] + prune_from(db, true)) =~= (prune_from(du, false)
        + seq![' ']) + prune_from(db, true));
    assert(phonetic_code(u) + seq![' '] + phonetic_code(v) == (prune_from(du, false) + seq![' '])
        + prune_from(db, true));
}

} // verus!
