//! The mathematical model of the mount-table format: what counts as
//! whitespace, which lines are comments, how a line splits into tokens,
//! how numeric fields read, and what entry (if any) a line denotes.

use vstd::prelude::*;

verus! {

/// The field separators of the format: space and tab.
pub open spec fn is_space(c: char) -> bool {
    c == ' ' || c == '\t'
}

/// A comment line: some character is `#` and everything before it is
/// whitespace. Equivalently, the first non-whitespace character of the
/// line is `#`.
pub open spec fn is_comment(s: Seq<char>) -> bool {
    exists|i: int|
        0 <= i < s.len() && s[i] == '#' && (forall|j: int| 0 <= j < i ==> is_space(s[j]))
}

/// One step of whitespace splitting, reading `s` left to right:
/// `pending` is the token being gathered, `done` the tokens already
/// complete. Whitespace closes a non-empty pending token; any other
/// character extends it.
pub open spec fn split_tokens(
    s: Seq<char>,
    pending: Seq<char>,
    done: Seq<Seq<char>>,
) -> Seq<Seq<char>>
    decreases s.len(),
{
    if s.len() == 0 {
        if pending.len() == 0 {
            done
        } else {
            done.push(pending)
        }
    } else if is_space(s[0]) {
        if pending.len() == 0 {
            split_tokens(s.drop_first(), Seq::empty(), done)
        } else {
            split_tokens(s.drop_first(), Seq::empty(), done.push(pending))
        }
    } else {
        split_tokens(s.drop_first(), pending.push(s[0]), done)
    }
}

/// The whitespace-separated tokens of a line: its maximal runs of
/// non-whitespace characters, in order. Leading, trailing and repeated
/// separators contribute nothing.
pub open spec fn tokens_of(s: Seq<char>) -> Seq<Seq<char>> {
    split_tokens(s, Seq::empty(), Seq::empty())
}

/// A decimal digit.
pub open spec fn is_digit(c: char) -> bool {
    48 <= c as u32 <= 57
}

/// The value of one decimal digit.
pub open spec fn digit_val(c: char) -> int {
    c as u32 - 48
}

/// Every character of `s` is a decimal digit.
pub open spec fn all_digits(s: Seq<char>) -> bool {
    forall|i: int| 0 <= i < s.len() ==> is_digit(#[trigger] s[i])
}

/// The value of a string of decimal digits, most significant first.
pub open spec fn digits_val(s: Seq<char>) -> int
    decreases s.len(),
{
    if s.len() == 0 {
        0
    } else {
        10 * digits_val(s.drop_last()) + digit_val(s.last())
    }
}

/// The signed reading of one token in the byte-sized signed range: an
/// optional `+` or `-` sign, then one or more decimal digits, whose
/// signed value lies within -128..=127. Anything else reads as nothing.
pub open spec fn small_int_of(t: Seq<char>) -> Option<i8> {
    let signed = t.len() > 0 && (t[0] == '+' || t[0] == '-');
    let digits = if signed {
        t.drop_first()
    } else {
        t
    };
    if digits.len() == 0 || !all_digits(digits) {
        None
    } else {
        let val = if signed && t[0] == '-' {
            -digits_val(digits)
        } else {
            digits_val(digits)
        };
        if -128 <= val <= 127 {
            Some(val as i8)
        } else {
            None
        }
    }
}

/// The reading of a `dump` or `fsck_pass` token: an unreadable token is
/// absorbed as 0, never reported as an error.
pub open spec fn int_field_of(t: Seq<char>) -> int {
    match small_int_of(t) {
        Some(v) => v as int,
        None => 0,
    }
}

/// What one accepted line denotes.
#[verifier::ext_equal]
pub struct EntryModel {
    pub spec: Seq<char>,
    pub file: Seq<char>,
    pub fs_type: Seq<char>,
    pub options: Seq<char>,
    pub dump: int,
    pub fsck_pass: int,
}

/// The record one line denotes, if any. A comment denotes nothing. The
/// first three tokens are mandatory; the fourth, fifth and sixth default
/// to the empty string, 0 and 0; a seventh token rejects the whole line,
/// however well-formed the first six are.
pub open spec fn line_model(s: Seq<char>) -> Option<EntryModel> {
    if is_comment(s) {
        None
    } else {
        let toks = tokens_of(s);
        if toks.len() < 3 || toks.len() > 6 {
            None
        } else {
            Some(
                EntryModel {
                    spec: toks[0],
                    file: toks[1],
                    fs_type: toks[2],
                    options: if toks.len() >= 4 {
                        toks[3]
                    } else {
                        Seq::empty()
                    },
                    dump: if toks.len() >= 5 {
                        int_field_of(toks[4])
                    } else {
                        0
                    },
                    fsck_pass: if toks.len() == 6 {
                        int_field_of(toks[5])
                    } else {
                        0
                    },
                },
            )
        }
    }
}

/// The table a sequence of lines denotes: each line's record, in input
/// order, with comments and rejected lines dropped.
pub open spec fn table_model(lines: Seq<Seq<char>>) -> Seq<EntryModel> {
    lines.filter_map(|l: Seq<char>| line_model(l))
}

/// The lines of an input that survive parsing: neither comments nor
/// rejected records.
pub open spec fn kept_lines(lines: Seq<Seq<char>>) -> Seq<Seq<char>> {
    lines.filter(|l: Seq<char>| line_model(l) is Some)
}

/// The records of a sequence of surviving lines, one per line, in order.
pub open spec fn records_of(ls: Seq<Seq<char>>) -> Seq<EntryModel> {
    ls.map_values(|l: Seq<char>| line_model(l)->Some_0)
}

/// A digit string has a non-negative value.
pub proof fn lemma_digits_val_nonneg(s: Seq<char>)
    requires
        all_digits(s),
    ensures
        digits_val(s) >= 0,
    decreases s.len(),
{
    if s.len() > 0 {
        assert forall|i: int| 0 <= i < s.drop_last().len() implies is_digit(
            #[trigger] s.drop_last()[i],
        ) by {
            assert(s.drop_last()[i] == s[i]);
        }
        lemma_digits_val_nonneg(s.drop_last());
        assert(is_digit(s[s.len() - 1]));
    }
}

/// Dropping trailing digits never increases the value of a digit string.
pub proof fn lemma_digits_val_take(s: Seq<char>, k: int)
    requires
        all_digits(s),
        0 <= k <= s.len(),
    ensures
        0 <= digits_val(s.take(k)) <= digits_val(s),
    decreases s.len(),
{
    if k == s.len() {
        assert(s.take(k) =~= s);
        lemma_digits_val_nonneg(s);
    } else {
        assert(s.take(k) =~= s.drop_last().take(k));
        assert forall|i: int| 0 <= i < s.drop_last().len() implies is_digit(
            #[trigger] s.drop_last()[i],
        ) by {
            assert(s.drop_last()[i] == s[i]);
        }
        lemma_digits_val_take(s.drop_last(), k);
        lemma_digits_val_nonneg(s.drop_last());
        assert(is_digit(s[s.len() - 1]));
    }
}

/// One more line extends the table by that line's record, if it has one.
pub proof fn lemma_table_model_take_succ(lines: Seq<Seq<char>>, i: int)
    requires
        0 <= i < lines.len(),
    ensures
        table_model(lines.take(i + 1)) == table_model(lines.take(i)) + (match line_model(
            lines[i],
        ) {
            Some(e) => seq![e],
            None => Seq::empty(),
        }),
{
    let a = lines.take(i + 1);
    assert(a.drop_last() =~= lines.take(i));
    assert(a.last() == lines[i]);
    match line_model(lines[i]) {
        Some(e) => {
            assert(table_model(a) =~= table_model(lines.take(i)) + seq![e]);
        },
        None => {
            assert(table_model(a) =~= table_model(lines.take(i)));
        },
    }
}

} // verus!
