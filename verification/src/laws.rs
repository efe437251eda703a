//! The format's guarantees, stated and proved once and for all: which
//! lines are dropped, which defaults apply, and how the table mirrors
//! the input.

use vstd::prelude::*;

use crate::model::{
    is_comment, is_space, kept_lines, line_model, records_of, small_int_of, table_model,
    tokens_of,
};

verus! {

/// A line whose first non-whitespace character is `#` — any run of
/// leading whitespace, then `#`, then anything at all, including
/// nothing — yields no record.
pub proof fn lemma_comment_dropped(s: Seq<char>, i: int)
    requires
        0 <= i < s.len(),
        s[i] == '#',
        forall|j: int| 0 <= j < i ==> is_space(s[j]),
    ensures
        line_model(s) is None,
{
    assert(is_comment(s));
}

/// A line with fewer than three whitespace-separated tokens yields no
/// record.
pub proof fn lemma_too_few_tokens_dropped(s: Seq<char>)
    requires
        tokens_of(s).len() < 3,
    ensures
        line_model(s) is None,
{
}

/// A line with more than six whitespace-separated tokens yields no
/// record, however well-formed its first six tokens are.
pub proof fn lemma_too_many_tokens_dropped(s: Seq<char>)
    requires
        tokens_of(s).len() > 6,
    ensures
        line_model(s) is None,
{
}

/// A non-comment line of exactly three tokens is accepted, and its
/// omitted fields take their defaults: empty options, dump 0,
/// fsck_pass 0.
pub proof fn lemma_three_tokens_defaults(s: Seq<char>)
    requires
        !is_comment(s),
        tokens_of(s).len() == 3,
    ensures
        line_model(s) matches Some(e) && e.spec == tokens_of(s)[0] && e.file == tokens_of(s)[1]
            && e.fs_type == tokens_of(s)[2] && e.options == Seq::<char>::empty() && e.dump == 0
            && e.fsck_pass == 0,
{
}

/// A fifth token that does not read as a byte-sized signed integer —
/// non-numeric, or out of range — does not reject the line: the record
/// is still produced and its dump field is 0.
pub proof fn lemma_unreadable_dump_defaults(s: Seq<char>)
    requires
        !is_comment(s),
        5 <= tokens_of(s).len() <= 6,
        small_int_of(tokens_of(s)[4]) is None,
    ensures
        line_model(s) matches Some(e) && e.dump == 0,
{
}

/// Acceptance is structural and nothing else: exactly the non-comment
/// lines of three to six tokens produce a record. In particular no line
/// is rejected for the content of its tokens.
pub proof fn lemma_acceptance(s: Seq<char>)
    ensures
        line_model(s) is Some <==> (!is_comment(s) && 3 <= tokens_of(s).len() <= 6),
{
}

/// The table mirrors the input exactly: it is the sequence of surviving
/// lines, in their original relative order, each replaced by its record.
pub proof fn lemma_table_mirrors_input_order(lines: Seq<Seq<char>>)
    ensures
        table_model(lines) == records_of(kept_lines(lines)),
    decreases lines.len(),
{
    reveal(Seq::filter);
    if lines.len() == 0 {
        assert(table_model(lines) =~= records_of(kept_lines(lines)));
    } else {
        let rest = lines.drop_last();
        lemma_table_mirrors_input_order(rest);
        match line_model(lines.last()) {
            Some(e) => {
                assert(kept_lines(lines) == kept_lines(rest).push(lines.last()));
                assert(records_of(kept_lines(rest).push(lines.last())) =~= records_of(
                    kept_lines(rest),
                ).push(e));
                assert(table_model(lines) =~= records_of(kept_lines(lines)));
            },
            None => {
                assert(kept_lines(lines) == kept_lines(rest));
                assert(table_model(lines) == table_model(rest));
            },
        }
    }
}

/// An input with no surviving line — zero lines, or every line a
/// comment or rejected — yields a table with no entries.
pub proof fn lemma_all_dropped_empty_table(lines: Seq<Seq<char>>)
    requires
        forall|i: int| 0 <= i < lines.len() ==> line_model(#[trigger] lines[i]) is None,
    ensures
        table_model(lines).len() == 0,
    decreases lines.len(),
{
    if lines.len() > 0 {
        let rest = lines.drop_last();
        assert forall|i: int| 0 <= i < rest.len() implies line_model(
            #[trigger] rest[i],
        ) is None by {
            assert(rest[i] == lines[i]);
        }
        lemma_all_dropped_empty_table(rest);
        assert(line_model(lines.last()) is None);
    }
}

} // verus!
