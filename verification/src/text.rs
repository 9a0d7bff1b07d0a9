//! Names as character sequences: the lexicographic order that sorted
//! collections in this crate are kept in.

use vstd::prelude::*;
use vstd::std_specs::iter::IteratorSpec;
use vstd::string::StringExecFns;

verus! {

/// How one name stands to another in lexicographic order.
#[derive(Clone, Copy, Debug, PartialEq, Eq, Structural)]
pub enum NameOrder {
    Before,
    Same,
    After,
}

/// Strict lexicographic order on character sequences, by code point. A proper
/// prefix comes before the longer sequence.
pub open spec fn lex_lt(a: Seq<char>, b: Seq<char>) -> bool
    decreases a.len(),
{
    if b.len() == 0 {
        false
    } else if a.len() == 0 {
        true
    } else if a[0] != b[0] {
        (a[0] as int) < (b[0] as int)
    } else {
        lex_lt(a.drop_first(), b.drop_first())
    }
}

/// The three-way comparison that `lex_lt` induces.
pub open spec fn lex_order(a: Seq<char>, b: Seq<char>) -> NameOrder {
    if lex_lt(a, b) {
        NameOrder::Before
    } else if a == b {
        NameOrder::Same
    } else {
        NameOrder::After
    }
}

/// No sequence comes before itself.
pub proof fn lemma_lex_lt_irreflexive(a: Seq<char>)
    ensures
        !lex_lt(a, a),
    decreases a.len(),
{
    if a.len() > 0 {
        lemma_lex_lt_irreflexive(a.drop_first());
    }
}

/// Of two different sequences exactly one comes before the other.
pub proof fn lemma_lex_lt_total(a: Seq<char>, b: Seq<char>)
    ensures
        a != b ==> (lex_lt(a, b) <==> !lex_lt(b, a)),
        a == b ==> !lex_lt(a, b) && !lex_lt(b, a),
    decreases a.len(),
{
    if a == b {
        lemma_lex_lt_irreflexive(a);
    } else if a.len() == 0 {
        assert(b.len() > 0) by {
            if b.len() == 0 {
                assert(a =~= b);
            }
        }
    } else if b.len() == 0 {
    } else if a[0] != b[0] {
        assert(a[0] as int != b[0] as int);
    } else {
        lemma_lex_lt_total(a.drop_first(), b.drop_first());
        if a.drop_first() == b.drop_first() {
            assert(a =~= seq![a[0]] + a.drop_first());
            assert(b =~= seq![b[0]] + b.drop_first());
        }
    }
}

/// The order is transitive.
pub proof fn lemma_lex_lt_transitive(a: Seq<char>, b: Seq<char>, c: Seq<char>)
    requires
        lex_lt(a, b),
        lex_lt(b, c),
    ensures
        lex_lt(a, c),
    decreases a.len(),
{
    if a.len() == 0 {
    } else if a[0] != b[0] || b[0] != c[0] {
    } else {
        lemma_lex_lt_transitive(a.drop_first(), b.drop_first(), c.drop_first());
    }
}

/// A character's code point fits in 32 bits.
pub proof fn lemma_char_code(c: char)
    ensures
        0 <= c as int <= 0x10FFFF,
        (c as u32) as int == c as int,
{
}

/// Compares two names in lexicographic order.
pub fn compare_names(a: &str, b: &str) -> (r: NameOrder)
    ensures
        r == lex_order(a@, b@),
{
    let mut ia = a.chars();
    let mut ib = b.chars();
    loop
        invariant
            lex_lt(a@, b@) == lex_lt(ia.remaining(), ib.remaining()),
            (a@ == b@) == (ia.remaining() == ib.remaining()),
            ia.obeys_prophetic_iter_laws(),
            ib.obeys_prophetic_iter_laws(),
            ia.decrease() is Some,
        decreases ia.decrease()->0,
    {
        let ghost ra = ia.remaining();
        let ghost rb = ib.remaining();
        let ca = ia.next();
        let cb = ib.next();
        match (ca, cb) {
            (None, None) => {
                assert(ra =~= rb);
                return NameOrder::Same;
            },
            (None, Some(_)) => {
                return NameOrder::Before;
            },
            (Some(_), None) => {
                return NameOrder::After;
            },
            (Some(x), Some(y)) => {
                if x != y {
                    proof {
                        lemma_char_code(x);
                        lemma_char_code(y);
                    }
                    if (x as u32) < (y as u32) {
                        return NameOrder::Before;
                    } else {
                        return NameOrder::After;
                    }
                }
                proof {
                    assert(ra =~= seq![x] + ra.drop_first());
                    assert(rb =~= seq![y] + rb.drop_first());
                }
            },
        }
    }
}

/// The names of the sequence increase strictly in lexicographic order.
pub open spec fn names_increasing(names: Seq<Seq<char>>) -> bool {
    forall|i: int, j: int| #![trigger names[i], names[j]] 0 <= i < j < names.len() ==> lex_lt(names[i], names[j])
}

/// The names of a finite set in increasing lexicographic order.
pub open spec fn sorted_names(names: Set<Seq<char>>) -> Seq<Seq<char>> {
    choose|q: Seq<Seq<char>>| names_increasing(q) && q.to_set() == names
}

/// Two increasing sequences with the same names are the same sequence.
pub proof fn lemma_increasing_unique(p: Seq<Seq<char>>, q: Seq<Seq<char>>)
    requires
        names_increasing(p),
        names_increasing(q),
        p.to_set() == q.to_set(),
    ensures
        p == q,
    decreases p.len(),
{
    if p.len() == 0 {
        if q.len() > 0 {
            assert(q.contains(q[0]));
            assert(p.to_set().contains(q[0]));
            assert(p.contains(q[0]));
        }
        assert(p =~= q);
    } else {
        assert(p.contains(p.last()));
        assert(q.to_set().contains(p.last()));
        assert(q.contains(p.last()));
        let a = p.last();
        let b = q.last();
        let j = choose|j: int| 0 <= j < q.len() && q[j] == a;
        assert(q.contains(b));
        assert(p.to_set().contains(b));
        assert(p.contains(b));
        let i = choose|i: int| 0 <= i < p.len() && p[i] == b;
        lemma_lex_lt_total(a, b);
        if j < q.len() - 1 {
            assert(lex_lt(q[j], q[q.len() - 1]));
        }
        if i < p.len() - 1 {
            assert(lex_lt(p[i], p[p.len() - 1]));
        }
        assert(a == b);
        let p_rest = p.drop_last();
        let q_rest = q.drop_last();
        assert forall|x: Seq<char>| p_rest.to_set().contains(x) == q_rest.to_set().contains(x) by {
            lemma_lex_lt_irreflexive(a);
            if p_rest.contains(x) {
                let i = choose|i: int| 0 <= i < p_rest.len() && p_rest[i] == x;
                assert(lex_lt(p[i], p[p.len() - 1]));
                assert(p.contains(x));
                assert(q.to_set().contains(x));
                assert(q.contains(x));
                let j = choose|j: int| 0 <= j < q.len() && q[j] == x;
                assert(q_rest[j] == x);
            }
            if q_rest.contains(x) {
                let j = choose|j: int| 0 <= j < q_rest.len() && q_rest[j] == x;
                assert(lex_lt(q[j], q[q.len() - 1]));
                assert(q.contains(x));
                assert(p.to_set().contains(x));
                assert(p.contains(x));
                let i = choose|i: int| 0 <= i < p.len() && p[i] == x;
                assert(p_rest[i] == x);
            }
        }
        assert(p_rest.to_set() =~= q_rest.to_set());
        lemma_increasing_unique(p_rest, q_rest);
        assert(p =~= p_rest.push(a));
        assert(q =~= q_rest.push(b));
    }
}

/// An increasing sequence is the sorted sequence of its names.
pub proof fn lemma_sorted_names(q: Seq<Seq<char>>)
    requires
        names_increasing(q),
    ensures
        sorted_names(q.to_set()) == q,
{
    let s = sorted_names(q.to_set());
    assert(names_increasing(s) && s.to_set() == q.to_set());
    lemma_increasing_unique(s, q);
}

/// The character of a decimal digit.
pub open spec fn digit_char(d: int) -> char {
    if d == 0 {
        '0'
    } else if d == 1 {
        '1'
    } else if d == 2 {
        '2'
    } else if d == 3 {
        '3'
    } else if d == 4 {
        '4'
    } else if d == 5 {
        '5'
    } else if d == 6 {
        '6'
    } else if d == 7 {
        '7'
    } else if d == 8 {
        '8'
    } else {
        '9'
    }
}

/// The decimal digits of a natural number, without leading zeros.
pub open spec fn nat_text(n: nat) -> Seq<char>
    decreases n,
{
    if n < 10 {
        seq![digit_char(n as int)]
    } else {
        nat_text(n / 10).push(digit_char((n % 10) as int))
    }
}

/// An integer in decimal, with a minus sign before a negative one.
pub open spec fn int_text(i: int) -> Seq<char> {
    if i < 0 {
        seq!['-'] + nat_text((-i) as nat)
    } else {
        nat_text(i as nat)
    }
}

/// The text of one decimal digit.
fn digit_str(d: u32) -> (r: &'static str)
    requires
        d < 10,
    ensures
        r@ == seq![digit_char(d as int)],
{
    proof {
        reveal_strlit("0");
        reveal_strlit("1");
        reveal_strlit("2");
        reveal_strlit("3");
        reveal_strlit("4");
        reveal_strlit("5");
        reveal_strlit("6");
        reveal_strlit("7");
        reveal_strlit("8");
        reveal_strlit("9");
    }
    let r = if d == 0 {
        "0"
    } else if d == 1 {
        "1"
    } else if d == 2 {
        "2"
    } else if d == 3 {
        "3"
    } else if d == 4 {
        "4"
    } else if d == 5 {
        "5"
    } else if d == 6 {
        "6"
    } else if d == 7 {
        "7"
    } else if d == 8 {
        "8"
    } else {
        "9"
    };
    assert(r@ =~= seq![digit_char(d as int)]);
    r
}

/// Appends the decimal digits of `n` to `out`.
pub fn append_natural(out: &mut String, n: u32)
    ensures
        final(out)@ == old(out)@ + nat_text(n as nat),
    decreases n,
{
    if n >= 10 {
        append_natural(out, n / 10);
    }
    out.append(digit_str(n % 10));
    assert(out@ =~= old(out)@ + nat_text(n as nat));
}

/// Appends `i` in decimal to `out`.
pub fn append_integer(out: &mut String, i: i32)
    ensures
        final(out)@ == old(out)@ + int_text(i as int),
{
    if i < 0 {
        proof {
            reveal_strlit("-");
        }
        out.append("-");
        let magnitude: i64 = -(i as i64);
        append_natural(out, magnitude as u32);
        assert(out@ =~= old(out)@ + int_text(i as int));
    } else {
        append_natural(out, i as u32);
    }
}

/// The characters of a string.
pub fn to_chars(s: &str) -> (v: Vec<char>)
    ensures
        v@ == s@,
{
    let mut v: Vec<char> = Vec::new();
    let mut it = s.chars();
    loop
        invariant
            v@ + it.remaining() == s@,
            it.obeys_prophetic_iter_laws(),
            it.decrease() is Some,
        decreases it.decrease()->0,
    {
        let ghost rest = it.remaining();
        match it.next() {
            Some(c) => {
                v.push(c);
                proof {
                    assert(rest =~= seq![c] + rest.drop_first());
                    assert(v@ + it.remaining() =~= s@);
                }
            },
            None => {
                proof {
                    assert(v@ =~= s@);
                }
                return v;
            },
        }
    }
}

/// The value of a decimal digit; -1 for any other character.
pub open spec fn digit_value(c: char) -> int {
    if c == '0' {
        0
    } else if c == '1' {
        1
    } else if c == '2' {
        2
    } else if c == '3' {
        3
    } else if c == '4' {
        4
    } else if c == '5' {
        5
    } else if c == '6' {
        6
    } else if c == '7' {
        7
    } else if c == '8' {
        8
    } else if c == '9' {
        9
    } else {
        -1
    }
}

/// Every character of the sequence is a decimal digit.
pub open spec fn all_digits(s: Seq<char>) -> bool {
    forall|i: int| 0 <= i < s.len() ==> digit_value(#[trigger] s[i]) >= 0
}

/// The number that a sequence of decimal digits stands for.
pub open spec fn decimal_value(s: Seq<char>) -> nat
    decreases s.len(),
{
    if s.len() == 0 {
        0
    } else {
        decimal_value(s.drop_last()) * 10 + if digit_value(s.last()) >= 0 {
            digit_value(s.last()) as nat
        } else {
            0
        }
    }
}

/// The number that a string of digits stands for, where the string is not
/// empty, holds digits only and the number is at most `limit`.
pub open spec fn parse_natural(s: Seq<char>, limit: nat) -> Option<nat> {
    if s.len() > 0 && all_digits(s) && decimal_value(s) <= limit {
        Some(decimal_value(s))
    } else {
        None
    }
}

/// The digits of a number stand for the number.
pub proof fn lemma_nat_text_value(n: nat)
    ensures
        nat_text(n).len() > 0,
        all_digits(nat_text(n)),
        decimal_value(nat_text(n)) == n,
        digit_value(nat_text(n)[0]) >= 0,
    decreases n,
{
    if n < 10 {
        assert(nat_text(n).drop_last() =~= Seq::<char>::empty());
        assert(decimal_value(nat_text(n).drop_last()) == 0);
    } else {
        lemma_nat_text_value(n / 10);
        let t = nat_text(n);
        assert(t.drop_last() =~= nat_text(n / 10));
        assert(t.last() == digit_char((n % 10) as int));
        assert forall|i: int| 0 <= i < t.len() implies digit_value(#[trigger] t[i]) >= 0 by {
            if i < t.len() - 1 {
                assert(t[i] == nat_text(n / 10)[i]);
            }
        }
        assert(t[0] == nat_text(n / 10)[0]);
    }
}

/// A longer string of digits stands for a number that is no smaller.
pub proof fn lemma_decimal_value_grows(s: Seq<char>, i: int)
    requires
        0 <= i <= s.len(),
    ensures
        decimal_value(s.take(i)) <= decimal_value(s),
    decreases s.len() - i,
{
    if i < s.len() {
        lemma_decimal_value_grows(s, i + 1);
        assert(s.take(i + 1).drop_last() =~= s.take(i));
    } else {
        assert(s.take(i) =~= s);
    }
}

/// The value of a decimal digit, if the character is one.
pub fn digit_of(c: char) -> (r: Option<u32>)
    ensures
        match r {
            Some(d) => d < 10 && digit_value(c) == d,
            None => digit_value(c) < 0,
        },
{
    if c == '0' {
        Some(0)
    } else if c == '1' {
        Some(1)
    } else if c == '2' {
        Some(2)
    } else if c == '3' {
        Some(3)
    } else if c == '4' {
        Some(4)
    } else if c == '5' {
        Some(5)
    } else if c == '6' {
        Some(6)
    } else if c == '7' {
        Some(7)
    } else if c == '8' {
        Some(8)
    } else if c == '9' {
        Some(9)
    } else {
        None
    }
}

/// Reads the characters from `start` to `end` as a decimal number that is at
/// most `limit`.
pub fn read_natural(chars: &Vec<char>, start: usize, end: usize, limit: u64) -> (r: Option<u64>)
    requires
        start <= end <= chars@.len(),
        limit <= 0xffff_ffff,
    ensures
        match r {
            Some(n) => parse_natural(chars@.subrange(start as int, end as int), limit as nat) == Some(n as nat),
            None => parse_natural(chars@.subrange(start as int, end as int), limit as nat) is None,
        },
{
    let ghost s = chars@.subrange(start as int, end as int);
    if start == end {
        return None;
    }
    let mut value: u64 = 0;
    let mut i: usize = start;
    while i < end
        invariant
            start <= i <= end,
            end <= chars@.len(),
            limit <= 0xffff_ffff,
            s == chars@.subrange(start as int, end as int),
            all_digits(s.take(i - start)),
            value == decimal_value(s.take(i - start)),
            value <= limit,
        decreases end - i,
    {
        proof {
            assert(s.take(i - start + 1).drop_last() =~= s.take(i - start));
            assert(s.take(i - start + 1).last() == chars@[i as int]);
        }
        match digit_of(chars[i]) {
            Some(d) => {
                value = value * 10 + d as u64;
                proof {
                    assert forall|j: int| 0 <= j < s.take(i - start + 1).len() implies digit_value(
                        #[trigger] s.take(i - start + 1)[j],
                    ) >= 0 by {
                        if j < i - start {
                            assert(s.take(i - start)[j] == s.take(i - start + 1)[j]);
                        }
                    }
                }
                if value > limit {
                    proof {
                        lemma_decimal_value_grows(s, i - start + 1);
                    }
                    return None;
                }
            },
            None => {
                proof {
                    assert(digit_value(s[i - start]) < 0);
                }
                return None;
            },
        }
        i += 1;
    }
    proof {
        assert(s.take(end - start) =~= s);
    }
    Some(value)
}

} // verus!
