//! Reading counts from their textual form: lines of a label, a colon and a
//! number.

use vstd::prelude::*;
use crate::stats::{zero_stats, Stats};
use crate::text::{parse_natural, read_natural, to_chars};

verus! {

/// The pattern stands in the text at place `i`.
pub open spec fn occurs_at(text: Seq<char>, pat: Seq<char>, i: int) -> bool {
    0 <= i && i + pat.len() <= text.len() && text.subrange(i, i + pat.len()) == pat
}

/// The pattern stands somewhere in the text.
pub open spec fn contains_text(text: Seq<char>, pat: Seq<char>) -> bool {
    occurs_from(text, pat, 0)
}

/// The pattern stands in the text at `from` or further on.
pub open spec fn occurs_from(text: Seq<char>, pat: Seq<char>, from: int) -> bool {
    exists|p: int| from <= p && #[trigger] occurs_at(text, pat, p)
}

/// `p` is the first place at `from` or further on where the pattern stands.
pub open spec fn is_first_occurrence(text: Seq<char>, pat: Seq<char>, from: int, p: int) -> bool {
    &&& from <= p
    &&& occurs_at(text, pat, p)
    &&& forall|q: int| from <= q < p ==> !#[trigger] occurs_at(text, pat, q)
}

/// The first place at `from` or further on where the pattern stands.
pub open spec fn first_occurrence(text: Seq<char>, pat: Seq<char>, from: int) -> int {
    choose|p: int| is_first_occurrence(text, pat, from, p)
}

/// What separates the label of a line from its number.
pub open spec fn separator() -> Seq<char> {
    ": "@
}

/// The second of the pieces into which the separator splits a line: what
/// stands between its first occurrence and the next one, or the end of the
/// line.
pub open spec fn second_piece(line: Seq<char>) -> Option<Seq<char>> {
    let sep = separator();
    if !occurs_from(line, sep, 0) {
        None
    } else {
        let start = first_occurrence(line, sep, 0) + sep.len();
        if occurs_from(line, sep, start) {
            Some(line.subrange(start, first_occurrence(line, sep, start)))
        } else {
            Some(line.subrange(start, line.len() as int))
        }
    }
}

/// An unsigned number of 32 bits in decimal: digits after an optional plus
/// sign.
pub open spec fn parse_unsigned(s: Seq<char>) -> Option<u32> {
    let digits = if s.len() > 0 && s[0] == '+' {
        s.drop_first()
    } else {
        s
    };
    match parse_natural(digits, 0xffff_ffff) {
        Some(n) => Some(n as u32),
        None => None,
    }
}

/// The number of a line, where its second piece is one.
pub open spec fn line_number(line: Seq<char>) -> Option<u32> {
    match second_piece(line) {
        Some(piece) => parse_unsigned(piece),
        None => None,
    }
}

/// The number of labels.
pub open spec fn label_count() -> int {
    13
}

/// The label of the count `k`, in the order in which a line is tested for
/// the labels.
pub open spec fn label(k: int) -> Seq<char> {
    if k == 0 {
        "Number of fields across all struct types"@
    } else if k == 1 {
        "Number of functions that return a value"@
    } else if k == 2 {
        "Number of function parameters"@
    } else if k == 3 {
        "Number of local variables"@
    } else if k == 4 {
        "Number of basic blocks"@
    } else if k == 5 {
        "Number of instructions"@
    } else if k == 6 {
        "Number of terminals"@
    } else if k == 7 {
        "Number of locals and globals with int type"@
    } else if k == 8 {
        "Number of locals and globals with struct type"@
    } else if k == 9 {
        "Number of locals and globals with pointer to int type"@
    } else if k == 10 {
        "Number of locals and globals with pointer to struct type"@
    } else if k == 11 {
        "Number of locals and globals with pointer to function type"@
    } else {
        "Number of locals and globals with pointer to pointer type"@
    }
}

/// The first label from `k` on that stands in the line.
pub open spec fn first_label_from(line: Seq<char>, k: int) -> Option<int>
    decreases label_count() - k,
{
    if k >= label_count() {
        None
    } else if contains_text(line, label(k)) {
        Some(k)
    } else {
        first_label_from(line, k + 1)
    }
}

/// The counts with the count `k` replaced by `n`.
pub open spec fn with_count(stats: Stats, k: int, n: u32) -> Stats {
    if k == 0 {
        Stats { field_num: n, ..stats }
    } else if k == 1 {
        Stats { function_returning_value_num: n, ..stats }
    } else if k == 2 {
        Stats { func_param_num: n, ..stats }
    } else if k == 3 {
        Stats { local_var_num: n, ..stats }
    } else if k == 4 {
        Stats { block_num: n, ..stats }
    } else if k == 5 {
        Stats { instr_num: n, ..stats }
    } else if k == 6 {
        Stats { terminal_num: n, ..stats }
    } else if k == 7 {
        Stats { int_type_num: n, ..stats }
    } else if k == 8 {
        Stats { struct_type_num: n, ..stats }
    } else if k == 9 {
        Stats { pointer_to_int_num: n, ..stats }
    } else if k == 10 {
        Stats { pointer_to_struct_num: n, ..stats }
    } else if k == 11 {
        Stats { pointer_to_function_num: n, ..stats }
    } else {
        Stats { pointer_to_pointer_num: n, ..stats }
    }
}

/// The counts after a line: a line with a number and a label sets the count
/// of its first label; any other line changes nothing.
pub open spec fn apply_line(stats: Stats, line: Seq<char>) -> Stats {
    match line_number(line) {
        Some(n) => match first_label_from(line, 0) {
            Some(k) => with_count(stats, k, n),
            None => stats,
        },
        None => stats,
    }
}

/// The counts after the lines of a sequence, from first to last.
pub open spec fn apply_lines(stats: Stats, lines: Seq<String>) -> Stats
    decreases lines.len(),
{
    if lines.len() == 0 {
        stats
    } else {
        apply_line(apply_lines(stats, lines.drop_last()), lines.last()@)
    }
}

/// A first occurrence is the first occurrence.
pub proof fn lemma_first_occurrence(text: Seq<char>, pat: Seq<char>, from: int, p: int)
    requires
        is_first_occurrence(text, pat, from, p),
    ensures
        occurs_from(text, pat, from),
        first_occurrence(text, pat, from) == p,
{
    let q = first_occurrence(text, pat, from);
    assert(is_first_occurrence(text, pat, from, q));
    if q < p {
        assert(!occurs_at(text, pat, q));
    } else if p < q {
        assert(!occurs_at(text, pat, p));
    }
}

/// Whether the pattern stands in the text at place `i`.
pub fn matches_at(text: &Vec<char>, pat: &Vec<char>, i: usize) -> (r: bool)
    requires
        i + pat@.len() <= text@.len(),
    ensures
        r == occurs_at(text@, pat@, i as int),
{
    let n = text.len();
    let mut k: usize = 0;
    while k < pat.len()
        invariant
            k <= pat@.len(),
            n == text@.len(),
            i + pat@.len() <= text@.len(),
            forall|j: int| 0 <= j < k ==> text@[i + j] == pat@[j],
        decreases pat.len() - k,
    {
        if text[i + k] != pat[k] {
            proof {
                assert(text@.subrange(i as int, i + pat@.len())[k as int] == text@[i + k]);
            }
            return false;
        }
        k += 1;
    }
    proof {
        assert(text@.subrange(i as int, i + pat@.len()) =~= pat@);
    }
    true
}

/// Finds the first place at `from` or further on where the pattern stands.
pub fn find_from(text: &Vec<char>, pat: &Vec<char>, from: usize) -> (r: Option<usize>)
    ensures
        match r {
            Some(p) => is_first_occurrence(text@, pat@, from as int, p as int),
            None => !occurs_from(text@, pat@, from as int),
        },
{
    if pat.len() > text.len() {
        return None;
    }
    let last = text.len() - pat.len();
    let mut i: usize = from;
    while i <= last
        invariant
            from <= i,
            last == text@.len() - pat@.len(),
            forall|q: int| from <= q < i ==> !#[trigger] occurs_at(text@, pat@, q),
        decreases last - i,
    {
        if matches_at(text, pat, i) {
            return Some(i);
        }
        if i == last {
            return None;
        }
        i += 1;
    }
    None
}

/// The text of the label of the count `k`.
fn label_text(k: usize) -> (r: &'static str)
    requires
        k < 13,
    ensures
        r@ == label(k as int),
{
    if k == 0 {
        "Number of fields across all struct types"
    } else if k == 1 {
        "Number of functions that return a value"
    } else if k == 2 {
        "Number of function parameters"
    } else if k == 3 {
        "Number of local variables"
    } else if k == 4 {
        "Number of basic blocks"
    } else if k == 5 {
        "Number of instructions"
    } else if k == 6 {
        "Number of terminals"
    } else if k == 7 {
        "Number of locals and globals with int type"
    } else if k == 8 {
        "Number of locals and globals with struct type"
    } else if k == 9 {
        "Number of locals and globals with pointer to int type"
    } else if k == 10 {
        "Number of locals and globals with pointer to struct type"
    } else if k == 11 {
        "Number of locals and globals with pointer to function type"
    } else {
        "Number of locals and globals with pointer to pointer type"
    }
}

/// The number of a line, where its second piece is one.
pub fn read_line_number(line: &Vec<char>) -> (r: Option<u32>)
    ensures
        r == line_number(line@),
{
    let sep = to_chars(": ");
    let n = line.len();
    proof {
        reveal_strlit(": ");
    }
    let first = match find_from(line, &sep, 0) {
        Some(p) => p,
        None => {
            return None;
        },
    };
    proof {
        lemma_first_occurrence(line@, sep@, 0, first as int);
    }
    let start = first + 2;
    let end = match find_from(line, &sep, start) {
        Some(q) => {
            proof {
                lemma_first_occurrence(line@, sep@, start as int, q as int);
            }
            q
        },
        None => n,
    };
    let ghost piece = line@.subrange(start as int, end as int);
    let digits_start = if start < end && line[start] == '+' {
        start + 1
    } else {
        start
    };
    proof {
        if start < end && line@[start as int] == '+' {
            assert(piece[0] == '+');
            assert(line@.subrange(digits_start as int, end as int) =~= piece.drop_first());
        } else {
            if piece.len() > 0 {
                assert(piece[0] == line@[start as int]);
            }
        }
    }
    match read_natural(line, digits_start, end, 0xffff_ffff) {
        Some(n) => Some(n as u32),
        None => None,
    }
}

/// The first label that stands in the line.
pub fn find_label(line: &Vec<char>) -> (r: Option<usize>)
    ensures
        match r {
            Some(k) => first_label_from(line@, 0) == Some(k as int) && k < 13,
            None => first_label_from(line@, 0) is None,
        },
{
    let mut k: usize = 0;
    while k < 13
        invariant
            k <= 13,
            first_label_from(line@, 0) == first_label_from(line@, k as int),
        decreases 13 - k,
    {
        let pat = to_chars(label_text(k));
        match find_from(line, &pat, 0) {
            Some(p) => {
                return Some(k);
            },
            None => {},
        }
        k += 1;
    }
    None
}

impl Stats {
    /// Replaces the count `k` by `n`.
    fn set_count(&mut self, k: usize, n: u32)
        requires
            k < 13,
        ensures
            *final(self) == with_count(*old(self), k as int, n),
    {
        if k == 0 {
            self.field_num = n;
        } else if k == 1 {
            self.function_returning_value_num = n;
        } else if k == 2 {
            self.func_param_num = n;
        } else if k == 3 {
            self.local_var_num = n;
        } else if k == 4 {
            self.block_num = n;
        } else if k == 5 {
            self.instr_num = n;
        } else if k == 6 {
            self.terminal_num = n;
        } else if k == 7 {
            self.int_type_num = n;
        } else if k == 8 {
            self.struct_type_num = n;
        } else if k == 9 {
            self.pointer_to_int_num = n;
        } else if k == 10 {
            self.pointer_to_struct_num = n;
        } else if k == 11 {
            self.pointer_to_function_num = n;
        } else {
            self.pointer_to_pointer_num = n;
        }
    }

    /// Takes the count of one line in: a line with a number and a label sets
    /// the count of its first label.
    pub fn read_line(&mut self, line: &str)
        ensures
            *final(self) == apply_line(*old(self), line@),
    {
        let chars = to_chars(line);
        match read_line_number(&chars) {
            Some(n) => {
                match find_label(&chars) {
                    Some(k) => {
                        self.set_count(k, n);
                    },
                    None => {},
                }
            },
            None => {},
        }
    }

    /// The counts that the lines of a text give, starting from zero.
    pub fn from_lines(lines: &Vec<String>) -> (stats: Stats)
        ensures
            stats == apply_lines(zero_stats(), lines@),
    {
        let mut stats = Stats::new();
        let mut i: usize = 0;
        while i < lines.len()
            invariant
                i <= lines.len(),
                stats == apply_lines(zero_stats(), lines@.take(i as int)),
            decreases lines.len() - i,
        {
            proof {
                assert(lines@.take(i + 1).drop_last() =~= lines@.take(i as int));
            }
            stats.read_line(lines[i].as_str());
            i += 1;
        }
        proof {
            assert(lines@.take(lines@.len() as int) =~= lines@);
        }
        stats
    }
}

} // verus!
