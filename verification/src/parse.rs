//! The executable parser: entry and table types, the line classifier,
//! the tokenizer, and the two parsing entry points.

use vstd::prelude::*;

use crate::model::{
    all_digits, digits_val, int_field_of, is_comment, is_digit, is_space,
    lemma_digits_val_take, line_model, small_int_of, split_tokens, table_model, tokens_of,
    EntryModel,
};
use vstd::string::StrSliceExecFns;

verus! {

/// One parsed mount-table record.
#[derive(Debug)]
pub struct FSTabEntry {
    /// The block special device or filesystem to be mounted.
    pub spec: String,
    /// The mount point (target) for the filesystem.
    pub file: String,
    /// The type of the filesystem.
    pub fs_type: String,
    /// The mount options, as a raw comma-separated list; empty when the
    /// line omits them.
    pub options: String,
    /// Priority for the dump backup utility; 0 when omitted or unparseable.
    pub dump: i8,
    /// Ordering for filesystem checks at boot; 0 when omitted or unparseable.
    pub fsck_pass: i8,
}

/// An ordered mount table: the records of one input, in input order.
#[derive(Debug)]
pub struct FSTabFile {
    pub entries: Vec<FSTabEntry>,
}

impl View for FSTabEntry {
    type V = EntryModel;

    open spec fn view(&self) -> EntryModel {
        EntryModel {
            spec: self.spec@,
            file: self.file@,
            fs_type: self.fs_type@,
            options: self.options@,
            dump: self.dump as int,
            fsck_pass: self.fsck_pass as int,
        }
    }
}

impl DeepView for FSTabEntry {
    type V = EntryModel;

    open spec fn deep_view(&self) -> EntryModel {
        self.view()
    }
}

impl View for FSTabFile {
    type V = Seq<EntryModel>;

    open spec fn view(&self) -> Seq<EntryModel> {
        self.entries.deep_view()
    }
}

impl PartialEq for FSTabEntry {
    fn eq(&self, other: &Self) -> (r: bool) {
        let r = self.spec == other.spec && self.file == other.file && self.fs_type
            == other.fs_type && self.options == other.options && self.dump == other.dump
            && self.fsck_pass == other.fsck_pass;
        proof {
            if r {
                assert(self@ =~= other@);
            }
        }
        r
    }
}

impl vstd::std_specs::cmp::PartialEqSpecImpl for FSTabEntry {
    open spec fn obeys_eq_spec() -> bool {
        true
    }

    open spec fn eq_spec(&self, other: &Self) -> bool {
        self@ == other@
    }
}

impl PartialEq for FSTabFile {
    fn eq(&self, other: &Self) -> (r: bool) {
        if self.entries.len() != other.entries.len() {
            proof {
                assert(self@.len() == self.entries@.len());
                assert(other@.len() == other.entries@.len());
            }
            return false;
        }
        let mut i: usize = 0;
        while i < self.entries.len()
            invariant
                i <= self.entries.len(),
                self.entries.len() == other.entries.len(),
                self@.len() == self.entries.len(),
                other@.len() == other.entries.len(),
                forall|j: int| 0 <= j < i ==> self@[j] == other@[j],
            decreases self.entries.len() - i,
        {
            if !(self.entries[i] == other.entries[i]) {
                proof {
                    assert(self@[i as int] == self.entries@[i as int]@);
                    assert(other@[i as int] == other.entries@[i as int]@);
                }
                return false;
            }
            i = i + 1;
        }
        proof {
            assert(self@ =~= other@);
        }
        true
    }
}

impl vstd::std_specs::cmp::PartialEqSpecImpl for FSTabFile {
    open spec fn obeys_eq_spec() -> bool {
        true
    }

    open spec fn eq_spec(&self, other: &Self) -> bool {
        self@ == other@
    }
}

/// Whether the first non-whitespace character of `line` is `#`.
pub fn is_comment_line(line: &str) -> (r: bool)
    ensures
        r == is_comment(line@),
{
    let n = line.unicode_len();
    let mut i: usize = 0;
    while i < n
        invariant
            n == line@.len(),
            i <= n,
            forall|j: int| 0 <= j < i ==> is_space(line@[j]),
        decreases n - i,
    {
        let c = line.get_char(i);
        if c == '#' {
            assert(is_comment(line@));
            return true;
        }
        if !(c == ' ' || c == '\t') {
            assert(!is_comment(line@)) by {
                assert forall|k: int|
                    0 <= k < line@.len() && line@[k] == '#' implies !(forall|j: int|
                    0 <= j < k ==> is_space(line@[j])) by {
                    if forall|j: int| 0 <= j < k ==> is_space(line@[j]) {
                        assert(!is_space(line@[i as int]));
                        assert(k != i);
                        if k < i {
                            assert(is_space(line@[k]));
                        } else {
                            assert(is_space(line@[i as int]));
                        }
                    }
                }
            }
            return false;
        }
        i = i + 1;
    }
    assert(!is_comment(line@)) by {
        assert forall|k: int| 0 <= k < line@.len() implies is_space(line@[k]) by {}
    }
    false
}

/// Split a line into its whitespace-separated tokens.
pub fn tokenize(line: &str) -> (toks: Vec<String>)
    ensures
        toks.deep_view() == tokens_of(line@),
{
    let n = line.unicode_len();
    let mut toks: Vec<String> = Vec::new();
    let mut in_tok: bool = false;
    let mut start: usize = 0;
    let mut i: usize = 0;
    proof {
        assert(line@.skip(0) =~= line@);
        assert(toks.deep_view() =~= Seq::<Seq<char>>::empty());
    }
    while i < n
        invariant
            n == line@.len(),
            i <= n,
            in_tok ==> start < i,
            split_tokens(
                line@.skip(i as int),
                if in_tok {
                    line@.subrange(start as int, i as int)
                } else {
                    Seq::<char>::empty()
                },
                toks.deep_view(),
            ) == tokens_of(line@),
        decreases n - i,
    {
        let ghost rest = line@.skip(i as int);
        let ghost pending = if in_tok {
            line@.subrange(start as int, i as int)
        } else {
            Seq::<char>::empty()
        };
        let c = line.get_char(i);
        proof {
            assert(rest[0] == line@[i as int]);
            assert(rest.drop_first() =~= line@.skip(i as int + 1));
        }
        if c == ' ' || c == '\t' {
            if in_tok {
                let t = line.substring_char(start, i).to_owned();
                let ghost old_dv = toks.deep_view();
                toks.push(t);
                proof {
                    assert(toks.deep_view() =~= old_dv.push(pending));
                }
                in_tok = false;
            }
        } else {
            if !in_tok {
                in_tok = true;
                start = i;
            }
            proof {
                assert(pending.push(line@[i as int]) =~= line@.subrange(
                    start as int,
                    i as int + 1,
                ));
            }
        }
        i = i + 1;
    }
    proof {
        assert(line@.skip(n as int) =~= Seq::<char>::empty());
    }
    if in_tok {
        let t = line.substring_char(start, n).to_owned();
        let ghost old_dv = toks.deep_view();
        toks.push(t);
        proof {
            assert(toks.deep_view() =~= old_dv.push(line@.subrange(start as int, n as int)));
        }
    }
    toks
}

/// Read one token as a byte-sized signed integer: an optional sign, then
/// decimal digits, within -128..=127. Anything else reads as `None`.
pub fn parse_small_int(t: &str) -> (r: Option<i8>)
    ensures
        r == small_int_of(t@),
{
    let n = t.unicode_len();
    let mut i: usize = 0;
    let mut neg: bool = false;
    if n > 0 {
        let c0 = t.get_char(0);
        if c0 == '+' {
            i = 1;
        } else if c0 == '-' {
            neg = true;
            i = 1;
        }
    }
    let ghost signed = t@.len() > 0 && (t@[0] == '+' || t@[0] == '-');
    let ghost digits = if signed {
        t@.drop_first()
    } else {
        t@
    };
    proof {
        assert(digits =~= t@.subrange(i as int, n as int));
    }
    if i == n {
        return None;
    }
    let ghost ds = i as int;
    let mut acc: u32 = 0;
    proof {
        assert(t@.subrange(ds, ds) =~= Seq::<char>::empty());
    }
    while i < n
        invariant
            n == t@.len(),
            0 <= ds <= i <= n,
            ds < n,
            digits == t@.subrange(ds, n as int),
            digits == (if signed {
                t@.drop_first()
            } else {
                t@
            }),
            signed == (t@.len() > 0 && (t@[0] == '+' || t@[0] == '-')),
            neg == (signed && t@[0] == '-'),
            all_digits(t@.subrange(ds, i as int)),
            acc == digits_val(t@.subrange(ds, i as int)),
            acc <= 128,
        decreases n - i,
    {
        let c = t.get_char(i);
        let u = c as u32;
        let ghost pre = t@.subrange(ds, i as int);
        if u < 48 || u > 57 {
            proof {
                assert(digits[i as int - ds] == t@[i as int]);
                assert(!is_digit(digits[i as int - ds]));
                assert(!all_digits(digits));
            }
            return None;
        }
        acc = acc * 10 + (u - 48);
        i = i + 1;
        proof {
            let cur = t@.subrange(ds, i as int);
            assert(cur.drop_last() =~= pre);
            assert(cur.last() == t@[i as int - 1]);
            assert forall|j: int| 0 <= j < cur.len() implies is_digit(#[trigger] cur[j]) by {
                if j < cur.len() - 1 {
                    assert(cur[j] == pre[j]);
                }
            }
        }
        if acc > 128 {
            proof {
                if all_digits(digits) {
                    assert(t@.subrange(ds, i as int) =~= digits.take(i as int - ds));
                    lemma_digits_val_take(digits, i as int - ds);
                }
            }
            return None;
        }
    }
    proof {
        assert(t@.subrange(ds, n as int) == digits);
        assert(digits.len() >= 1);
    }
    if neg {
        if acc == 128 {
            Some(-128)
        } else {
            Some(0 - (acc as i8))
        }
    } else {
        if acc <= 127 {
            Some(acc as i8)
        } else {
            None
        }
    }
}

/// Read a numeric field of a record: a token that does not read as a
/// byte-sized signed integer is absorbed as 0, never reported.
pub fn small_int_field(t: &str) -> (r: i8)
    ensures
        r as int == int_field_of(t@),
{
    match parse_small_int(t) {
        Some(v) => v,
        None => 0,
    }
}

/// Parse a single line of a mount table.
///
/// A comment line, a line of fewer than three tokens (blank lines
/// included) and a line of more than six tokens all yield `None`; any
/// other line yields exactly the record the format assigns to it, with
/// omitted trailing fields defaulted.
pub fn parse_fstab_line(fstab: &str) -> (r: Option<FSTabEntry>)
    ensures
        r is Some <==> line_model(fstab@) is Some,
        r matches Some(e) ==> line_model(fstab@) == Some(e@),
{
    if is_comment_line(fstab) {
        return None;
    }
    let toks = tokenize(fstab);
    proof {
        assert(toks.deep_view().len() == toks@.len());
    }
    if toks.len() < 3 || toks.len() > 6 {
        return None;
    }
    let options = if toks.len() >= 4 {
        toks[3].clone()
    } else {
        String::new()
    };
    let dump = if toks.len() >= 5 {
        small_int_field(toks[4].as_str())
    } else {
        0
    };
    let fsck_pass = if toks.len() == 6 {
        small_int_field(toks[5].as_str())
    } else {
        0
    };
    let entry = FSTabEntry {
        spec: toks[0].clone(),
        file: toks[1].clone(),
        fs_type: toks[2].clone(),
        options,
        dump,
        fsck_pass,
    };
    proof {
        let m = line_model(fstab@);
        assert forall|j: int| 0 <= j < toks@.len() implies toks.deep_view()[j]
            == #[trigger] toks@[j]@ by {}
        assert(m is Some);
        assert(m->Some_0 =~= entry@);
    }
    Some(entry)
}

/// Parse a whole mount table from its lines, in order.
///
/// Every line contributes its record or nothing, so the call cannot
/// fail: any input, the empty one included, yields a table, and the
/// records sit in the order of the lines they came from.
pub fn parse_fstab(fstab_lines: &Vec<String>) -> (r: FSTabFile)
    ensures
        r@ == table_model(fstab_lines.deep_view()),
{
    let ghost lv = fstab_lines.deep_view();
    let mut entries: Vec<FSTabEntry> = Vec::new();
    let mut i: usize = 0;
    proof {
        assert(lv.take(0) =~= Seq::<Seq<char>>::empty());
        assert(entries.deep_view() =~= table_model(lv.take(0)));
        assert(lv.len() == fstab_lines@.len());
    }
    while i < fstab_lines.len()
        invariant
            i <= fstab_lines.len(),
            lv == fstab_lines.deep_view(),
            lv.len() == fstab_lines@.len(),
            entries.deep_view() == table_model(lv.take(i as int)),
        decreases fstab_lines.len() - i,
    {
        let res = parse_fstab_line(fstab_lines[i].as_str());
        proof {
            crate::model::lemma_table_model_take_succ(lv, i as int);
            assert(lv[i as int] == fstab_lines@[i as int]@);
        }
        match res {
            Some(e) => {
                let ghost old_dv = entries.deep_view();
                entries.push(e);
                proof {
                    assert(entries.deep_view() =~= old_dv.push(e@));
                    assert(old_dv.push(e@) =~= old_dv + seq![e@]);
                }
            },
            None => {},
        }
        i = i + 1;
    }
    proof {
        assert(lv.take(lv.len() as int) =~= lv);
    }
    FSTabFile { entries }
}

} // verus!
