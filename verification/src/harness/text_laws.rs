//! What the texts of the scenarios are: prefixes, pieces, joined lines and numbers.

use vstd::prelude::*;

use crate::harness::text::{
    after_last, decimal_text, digit_char, has_prefix, has_text, joined, views,
};

verus! {

/// A text starts with exactly those texts that something completes to it.
pub proof fn law_prefix(s: Seq<char>, p: Seq<char>, rest: Seq<char>)
    ensures
        has_prefix(p + rest, p),
        has_prefix(s, p) ==> s == p + s.skip(p.len() as int),
        has_prefix(s, p) ==> s.len() >= p.len(),
{
    assert((p + rest).take(p.len() as int) =~= p);
    if has_prefix(s, p) {
        assert(s =~= s.take(p.len() as int) + s.skip(p.len() as int));
    }
}

/// A text holds another wherever that stands in it: at the front, at the end or
/// between two others; and a text that holds another has it somewhere.
pub proof fn law_text_within(a: Seq<char>, p: Seq<char>, b: Seq<char>, s: Seq<char>)
    ensures
        has_text(a + p + b, p),
        has_text(s, p) ==> exists|i: int|
            0 <= i && i + p.len() <= s.len() && s == #[trigger] s.take(i) + p + s.skip(
                i + p.len(),
            ),
{
    let whole = a + p + b;
    let n = a.len() as int;
    assert(whole.skip(n).take(p.len() as int) =~= p);
    assert(has_prefix(whole.skip(n), p));
    if has_text(s, p) {
        let i = choose|i: int| 0 <= i <= s.len() && #[trigger] has_prefix(s.skip(i), p);
        law_prefix(s.skip(i), p, Seq::empty());
        assert(s.skip(i).len() == s.len() - i);
        assert(s.skip(i).skip(p.len() as int) =~= s.skip(i + p.len()));
        assert(s =~= s.take(i) + s.skip(i));
        assert(s =~= s.take(i) + p + s.skip(i + p.len()));
    }
}

/// What follows the last `c` is the longest end of a text without one.
pub proof fn law_after_last(front: Seq<char>, c: char, tail: Seq<char>)
    requires
        forall|j: int| 0 <= j < tail.len() ==> #[trigger] tail[j] != c,
    ensures
        after_last(front.push(c) + tail, c) == tail,
        after_last(tail, c) == tail,
    decreases tail.len(),
{
    if tail.len() == 0 {
        assert(front.push(c) + tail =~= front.push(c));
        assert(after_last(front.push(c) + tail, c) =~= tail);
    } else {
        let t = tail.drop_last();
        assert(forall|j: int| 0 <= j < t.len() ==> #[trigger] t[j] == tail[j]);
        law_after_last(front, c, t);
        assert((front.push(c) + tail).drop_last() =~= front.push(c) + t);
        assert((front.push(c) + tail).last() == tail.last());
        assert(t.push(tail.last()) =~= tail);
        assert(tail.last() == tail[tail.len() - 1]);
    }
}

/// Joined texts: none gives nothing, one gives itself, and the joined texts of two
/// lists stand on both sides of one separator.
pub proof fn law_joined(a: Seq<Seq<char>>, b: Seq<Seq<char>>, t: Seq<char>, sep: Seq<char>)
    ensures
        joined(Seq::<Seq<char>>::empty(), sep) == Seq::<char>::empty(),
        joined(seq![t], sep) == t,
        a.len() > 0 && b.len() > 0 ==> joined(a + b, sep) == joined(a, sep) + sep + joined(b, sep),
    decreases b.len(),
{
    if a.len() > 0 && b.len() > 0 {
        assert((a + b).drop_last() =~= a + b.drop_last());
        assert((a + b).last() == b.last());
        if b.len() == 1 {
            assert(a + b.drop_last() =~= a);
            assert(b.last() == b[0]);
        } else {
            law_joined(a, b.drop_last(), t, sep);
            assert(joined(a + b, sep) =~= joined(a, sep) + sep + joined(b, sep));
        }
    }
}

/// The views of texts are the texts, in order.
pub proof fn law_views(v: Seq<String>, i: int)
    requires
        0 <= i < v.len(),
    ensures
        views(v).len() == v.len(),
        views(v)[i] == v[i]@,
{
}

/// The number that digits write: each stands for ten times the ones after it.
pub open spec fn written(s: Seq<char>) -> int
    decreases s.len(),
{
    if s.len() == 0 {
        0
    } else {
        10 * written(s.drop_last()) + (s.last() as int - '0' as int)
    }
}

/// The decimal text of a number is made of digits, writes the number, and starts with
/// a zero only for zero itself.
pub proof fn law_decimal_writes_the_number(n: nat)
    ensures
        decimal_text(n).len() >= 1,
        written(decimal_text(n)) == n,
        forall|i: int|
            0 <= i < decimal_text(n).len() ==> '0' as int <= (#[trigger] decimal_text(n)[i]) as int
                <= '9' as int,
        n > 0 ==> decimal_text(n)[0] != '0',
    decreases n,
{
    let t = decimal_text(n);
    assert(digit_char(n as int % 10) as int == 0x30 + n as int % 10);
    if n < 10 {
        assert(digit_char(n as int) as int == 0x30 + n);
        assert(t.drop_last() =~= Seq::<char>::empty());
        assert(written(t.drop_last()) == 0);
        assert(t.last() == t[0]);
    } else {
        law_decimal_writes_the_number(n / 10);
        assert(t.drop_last() =~= decimal_text(n / 10));
        assert(t[0] == decimal_text(n / 10)[0]);
        assert forall|i: int| 0 <= i < t.len() implies '0' as int <= (#[trigger] t[i]) as int
            <= '9' as int by {
            if i < t.len() - 1 {
                assert(t[i] == decimal_text(n / 10)[i]);
            }
        }
    }
}

} // verus!
