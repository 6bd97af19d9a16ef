//! Text: prefixes, pieces, lines and decimal numbers.

use vstd::prelude::*;
use vstd::string::{StrSliceExecFns, StringExecFns};

verus! {

/// Whether `s` starts with `p`.
pub open spec fn has_prefix(s: Seq<char>, p: Seq<char>) -> bool {
    p.len() <= s.len() && s.take(p.len() as int) == p
}

/// Whether `p` stands in `s` somewhere.
pub open spec fn has_text(s: Seq<char>, p: Seq<char>) -> bool {
    exists|i: int| 0 <= i <= s.len() && #[trigger] has_prefix(s.skip(i), p)
}

/// What follows the last `c` of `s`; all of `s` if there is none.
pub open spec fn after_last(s: Seq<char>, c: char) -> Seq<char>
    decreases s.len(),
{
    if s.len() == 0 {
        s
    } else if s.last() == c {
        Seq::empty()
    } else {
        after_last(s.drop_last(), c).push(s.last())
    }
}

/// Texts one after the other, with `sep` between them.
pub open spec fn joined(texts: Seq<Seq<char>>, sep: Seq<char>) -> Seq<char>
    decreases texts.len(),
{
    if texts.len() == 0 {
        Seq::empty()
    } else if texts.len() == 1 {
        texts[0]
    } else {
        joined(texts.drop_last(), sep) + sep + texts.last()
    }
}

/// The views of texts.
pub open spec fn views(v: Seq<String>) -> Seq<Seq<char>> {
    Seq::new(v.len(), |i: int| v[i]@)
}

/// The decimal digit of `n`.
pub open spec fn digit_char(n: int) -> char {
    (0x30 + n) as char
}

/// The decimal text of `n`.
pub open spec fn decimal_text(n: nat) -> Seq<char>
    decreases n,
{
    if n < 10 {
        seq![digit_char(n as int)]
    } else {
        decimal_text(n / 10).push(digit_char(n as int % 10))
    }
}

/// Whether a text starts with another.
pub fn starts_with(s: &str, p: &str) -> (r: bool)
    ensures
        r == has_prefix(s@, p@),
{
    assert(s@.skip(0) =~= s@);
    prefix_at(s, 0, p)
}

fn prefix_at(s: &str, start: usize, p: &str) -> (r: bool)
    requires
        start <= s@.len(),
    ensures
        r == has_prefix(s@.skip(start as int), p@),
{
    let n: usize = p.unicode_len();
    let len: usize = s.unicode_len();
    if n > len - start {
        return false;
    }
    let ghost rest = s@.skip(start as int);
    for i in 0..n
        invariant
            n == p@.len(),
            start + n <= len,
            len == s@.len(),
            rest == s@.skip(start as int),
            forall|j: int| 0 <= j < i ==> rest[j] == p@[j],
    {
        if s.get_char(start + i) != p.get_char(i) {
            assert(rest.take(n as int)[i as int] != p@[i as int]);
            return false;
        }
    }
    assert(rest.take(n as int) =~= p@);
    true
}

/// Whether a text holds another.
pub fn contains(s: &str, p: &str) -> (r: bool)
    ensures
        r == has_text(s@, p@),
{
    let n: usize = s.unicode_len();
    let mut i: usize = 0;
    while i <= n
        invariant
            n == s@.len(),
            i <= n + 1,
            forall|j: int| 0 <= j < i ==> !#[trigger] has_prefix(s@.skip(j), p@),
        decreases n + 1 - i,
    {
        if prefix_at(s, i, p) {
            return true;
        }
        if i == n {
            return false;
        }
        i = i + 1;
    }
    false
}

/// Whether a text holds a character.
pub fn contains_char(s: &str, c: char) -> (r: bool)
    ensures
        r == s@.contains(c),
{
    let n: usize = s.unicode_len();
    for i in 0..n
        invariant
            n == s@.len(),
            forall|j: int| 0 <= j < i ==> s@[j] != c,
    {
        if s.get_char(i) == c {
            return true;
        }
    }
    false
}

/// The rest of a text after a prefix, if it has that prefix.
pub fn strip_prefix(s: &str, p: &str) -> (r: Option<String>)
    ensures
        match r {
            Some(t) => has_prefix(s@, p@) && t@ == s@.skip(p@.len() as int),
            None => !has_prefix(s@, p@),
        },
{
    if starts_with(s, p) {
        let rest: &str = s.substring_char(p.unicode_len(), s.unicode_len());
        assert(rest@ =~= s@.skip(p@.len() as int));
        Some(String::from_str(rest))
    } else {
        None
    }
}

proof fn lemma_after_last(s: Seq<char>, c: char, i: int)
    requires
        0 <= i <= s.len(),
        forall|j: int| i <= j < s.len() ==> s[j] != c,
        i == 0 || s[i - 1] == c,
    ensures
        after_last(s, c) == s.skip(i),
    decreases s.len(),
{
    if s.len() == 0 || i == s.len() {
        assert(s.skip(i) =~= Seq::<char>::empty());
    } else {
        assert(s.last() == s[s.len() - 1]);
        lemma_after_last(s.drop_last(), c, i);
        assert(s.drop_last().skip(i).push(s.last()) =~= s.skip(i));
    }
}

/// What follows the last `c`.
pub fn last_piece<'a>(s: &'a str, c: char) -> (r: &'a str)
    ensures
        r@ == after_last(s@, c),
{
    let n: usize = s.unicode_len();
    let mut i: usize = n;
    while i > 0 && s.get_char(i - 1) != c
        invariant
            n == s@.len(),
            i <= n,
            forall|j: int| i <= j < n ==> s@[j] != c,
        decreases i,
    {
        i = i - 1;
    }
    proof {
        lemma_after_last(s@, c, i as int);
        assert(s@.subrange(i as int, n as int) =~= s@.skip(i as int));
    }
    s.substring_char(i, n)
}

/// Texts one after the other, with `sep` between them.
pub fn join(texts: &[String], sep: &str) -> (r: String)
    ensures
        r@ == joined(views(texts@), sep@),
{
    let ghost all = views(texts@);
    if texts.len() == 0 {
        return String::new();
    }
    let mut r: String = texts[0].clone();
    assert(all.take(1) =~= seq![all[0]]);
    assert(r@ == joined(all.take(1), sep@));
    for i in 1..texts.len()
        invariant
            all == views(texts@),
            r@ == joined(all.take(i as int), sep@),
    {
        r.append(sep);
        r.append(texts[i].as_str());
        assert(all.take(i + 1).drop_last() =~= all.take(i as int));
        assert(all.take(i + 1).last() == texts@[i as int]@);
    }
    assert(all.take(all.len() as int) =~= all);
    r
}

/// The text of one digit.
fn digit(n: u32) -> (c: &'static str)
    requires
        n < 10,
    ensures
        c@ == seq![digit_char(n as int)],
{
    proof {
        reveal_strlit("0");
        reveal_strlit("1");
        reveal_strlit("2");
        reveal_strlit("3");
        reveal_strlit("4");
        reveal_strlit("5");
        reveal_strlit("6");
        reveal_strlit("7");
        reveal_strlit("8");
        reveal_strlit("9");
    }
    let c: &'static str = match n {
        0 => "0",
        1 => "1",
        2 => "2",
        3 => "3",
        4 => "4",
        5 => "5",
        6 => "6",
        7 => "7",
        8 => "8",
        _ => "9",
    };
    assert(c@ =~= seq![digit_char(n as int)]);
    c
}

/// The decimal text of a number.
pub fn decimal(n: u32) -> (s: String)
    ensures
        s@ == decimal_text(n as nat),
    decreases n,
{
    if n < 10 {
        String::from_str(digit(n))
    } else {
        let mut s: String = decimal(n / 10);
        let ghost head = s@;
        s.append(digit(n % 10));
        assert(s@ =~= head.push(digit_char(n as int % 10)));
        s
    }
}

proof fn lemma_decimal_nonempty(n: nat)
    ensures
        decimal_text(n).len() >= 1,
        n >= 10 ==> decimal_text(n).len() >= 2,
    decreases n,
{
    if n >= 10 {
        lemma_decimal_nonempty(n / 10);
    }
}

/// Two numbers with the same decimal text are the same.
pub proof fn law_decimal_injective(a: nat, b: nat)
    requires
        decimal_text(a) == decimal_text(b),
    ensures
        a == b,
    decreases a,
{
    lemma_decimal_nonempty(a);
    lemma_decimal_nonempty(b);
    let ta = decimal_text(a);
    let tb = decimal_text(b);
    assert(ta.last() == tb.last());
    if a < 10 && b < 10 {
        assert(ta[0] == tb[0]);
    } else {
        assert(a >= 10 && b >= 10);
        assert(ta.drop_last() =~= decimal_text(a / 10));
        assert(tb.drop_last() =~= decimal_text(b / 10));
        law_decimal_injective(a / 10, b / 10);
    }
}

/// Whether a character is a decimal digit.
spec fn is_digit(c: char) -> bool {
    0x30 <= c as u32 <= 0x39
}

/// The number that digits write.
spec fn digits_value(s: Seq<char>) -> nat
    decreases s.len(),
{
    if s.len() == 0 {
        0
    } else {
        (digits_value(s.drop_last()) * 10 + (s.last() as u32 - 0x30)) as nat
    }
}

/// A decimal text is made of digits that write the number.
proof fn lemma_decimal_reads_back(n: nat)
    ensures
        digits_value(decimal_text(n)) == n,
        forall|i: int| 0 <= i < decimal_text(n).len() ==> is_digit(#[trigger] decimal_text(n)[i]),
    decreases n,
{
    let t = decimal_text(n);
    if n < 10 {
        assert(t.drop_last() =~= Seq::empty());
        assert(digits_value(t.drop_last()) == 0);
    } else {
        lemma_decimal_reads_back(n / 10);
        assert(t.drop_last() =~= decimal_text(n / 10));
        assert forall|i: int| 0 <= i < t.len() implies is_digit(#[trigger] t[i]) by {
            if i < t.len() - 1 {
                assert(t[i] == decimal_text(n / 10)[i]);
            }
        }
    }
}

/// More digits never write a lower number.
proof fn lemma_digits_grow(s: Seq<char>, k: int)
    requires
        0 <= k <= s.len(),
        forall|i: int| 0 <= i < s.len() ==> is_digit(#[trigger] s[i]),
    ensures
        digits_value(s.take(k)) <= digits_value(s),
    decreases s.len(),
{
    if k < s.len() {
        let rest = s.drop_last();
        assert forall|i: int| 0 <= i < rest.len() implies is_digit(#[trigger] rest[i]) by {
            assert(is_digit(s[i]));
        }
        lemma_digits_grow(rest, k);
        assert(rest.take(k) =~= s.take(k));
        assert(is_digit(s[s.len() - 1]));
    } else {
        assert(s.take(k) =~= s);
    }
}

/// Whether two texts are the same.
pub fn same_text(a: &str, b: &str) -> (r: bool)
    ensures
        r == (a@ == b@),
{
    let r: bool = a.unicode_len() == b.unicode_len() && starts_with(a, b);
    proof {
        assert(a@.take(a@.len() as int) =~= a@);
    }
    r
}

/// The number whose decimal text this is, if it is one's.
pub fn parse_decimal(s: &str) -> (r: Option<u32>)
    ensures
        match r {
            Some(n) => s@ == decimal_text(n as nat),
            None => forall|n: u32| s@ != #[trigger] decimal_text(n as nat),
        },
{
    let len: usize = s.unicode_len();
    let mut v: u64 = 0;
    assert(s@.take(0).len() == 0);
    for i in 0..len
        invariant
            len == s@.len(),
            v == digits_value(s@.take(i as int)),
            v <= u32::MAX,
            forall|j: int| 0 <= j < i ==> is_digit(#[trigger] s@[j]),
    {
        let c: char = s.get_char(i);
        let n: u32 = c as u32;
        if n < 0x30 || n > 0x39 {
            assert forall|m: u32| s@ != #[trigger] decimal_text(m as nat) by {
                lemma_decimal_reads_back(m as nat);
                assert(!is_digit(s@[i as int]));
            }
            return None;
        }
        assert(s@.take(i + 1).drop_last() =~= s@.take(i as int));
        v = v * 10 + (n - 0x30) as u64;
        if v > u32::MAX as u64 {
            assert forall|m: u32| s@ != #[trigger] decimal_text(m as nat) by {
                lemma_decimal_reads_back(m as nat);
                if s@ == decimal_text(m as nat) {
                    lemma_digits_grow(s@, i + 1);
                }
            }
            return None;
        }
    }
    assert(s@.take(len as int) =~= s@);
    let n: u32 = v as u32;
    let text: String = decimal(n);
    if same_text(s, text.as_str()) {
        Some(n)
    } else {
        assert forall|m: u32| s@ != #[trigger] decimal_text(m as nat) by {
            lemma_decimal_reads_back(m as nat);
        }
        None
    }
}

} // verus!
