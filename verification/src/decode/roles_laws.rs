//! What the roles read from a report's table are.

use vstd::prelude::*;
use vstd::utf8::encode_utf8;

use crate::decode::roles::{
    is_white_space, role_spec, row_of, row_views, rows_of, split_spec, str_views, trim_end,
    trim_start, trimmed, unticked, RoleRow,
};
use crate::harness::text::joined;

verus! {

/// The pieces of a text hold no separator, and joined by it they make up the text
/// again.
pub proof fn law_split_joins_back(s: Seq<char>, sep: char)
    ensures
        split_spec(s, sep).len() >= 1,
        joined(split_spec(s, sep), seq![sep]) == s,
        forall|i: int|
            0 <= i < split_spec(s, sep).len() ==> !(#[trigger] split_spec(s, sep)[i]).contains(sep),
    decreases s.len(),
{
    let pieces = split_spec(s, sep);
    if s.len() == 0 {
        assert(pieces[0] == s);
    } else {
        let front = s.drop_last();
        let before = split_spec(front, sep);
        law_split_joins_back(front, sep);
        assert(s =~= front.push(s.last()));
        if s.last() == sep {
            assert(pieces.drop_last() =~= before);
            assert(pieces.last() == Seq::<char>::empty());
            assert(joined(pieces, seq![sep]) =~= s);
        } else {
            let last = before.last().push(s.last());
            assert(pieces == before.drop_last().push(last));
            assert(before[before.len() - 1] == before.last());
            assert(!last.contains(sep)) by {
                if last.contains(sep) {
                    let k = choose|k: int| 0 <= k < last.len() && last[k] == sep;
                    assert(k < before.last().len());
                    assert(before.last()[k] == sep);
                }
            }
            assert forall|i: int| 0 <= i < pieces.len() implies !(#[trigger] pieces[i]).contains(
                sep,
            ) by {
                if i < before.len() - 1 {
                    assert(pieces[i] == before[i]);
                }
            }
            assert(pieces.drop_last() =~= before.drop_last());
            if before.len() == 1 {
                assert(pieces[0] == last);
                assert(joined(pieces, seq![sep]) =~= s);
            } else {
                assert(joined(pieces, seq![sep]) =~= joined(before, seq![sep]).push(s.last()));
            }
        }
    }
}

/// Whether `core` is what stands in `s` from `i` to `j`, with nothing but white space
/// around it and none at its ends.
pub open spec fn stands_in(core: Seq<char>, s: Seq<char>, i: int, j: int) -> bool {
    &&& 0 <= i <= j <= s.len()
    &&& core == s.subrange(i, j)
    &&& forall|k: int| 0 <= k < i ==> is_white_space(#[trigger] s[k])
    &&& forall|k: int| j <= k < s.len() ==> is_white_space(#[trigger] s[k])
    &&& core.len() > 0 ==> !is_white_space(core[0]) && !is_white_space(core.last())
}

/// Whether `core` is what stands in `s` from `i` to `j`, with nothing but backticks
/// around it and none at its ends.
pub open spec fn ticked_in(core: Seq<char>, s: Seq<char>, i: int, j: int) -> bool {
    &&& 0 <= i <= j <= s.len()
    &&& core == s.subrange(i, j)
    &&& forall|k: int| 0 <= k < i ==> #[trigger] s[k] == '`'
    &&& forall|k: int| j <= k < s.len() ==> #[trigger] s[k] == '`'
    &&& core.len() > 0 ==> core[0] != '`' && core.last() != '`'
}

proof fn lemma_trim_start(s: Seq<char>, p: spec_fn(char) -> bool, i: int)
    requires
        0 <= i <= s.len(),
        forall|k: int| 0 <= k < i ==> p(#[trigger] s[k]),
        i < s.len() ==> !p(s[i]),
    ensures
        trim_start(s, p) == s.skip(i),
    decreases s.len(),
{
    if i > 0 {
        let rest = s.skip(1);
        assert(p(s[0]));
        assert forall|k: int| 0 <= k < i - 1 implies p(#[trigger] rest[k]) by {
            assert(p(s[k + 1]));
        }
        lemma_trim_start(rest, p, i - 1);
        assert(rest.skip(i - 1) =~= s.skip(i));
    } else {
        assert(s.skip(0) =~= s);
    }
}

proof fn lemma_trim_end(s: Seq<char>, p: spec_fn(char) -> bool, j: int)
    requires
        0 <= j <= s.len(),
        forall|k: int| j <= k < s.len() ==> p(#[trigger] s[k]),
        j > 0 ==> !p(s[j - 1]),
    ensures
        trim_end(s, p) == s.take(j),
    decreases s.len(),
{
    if j < s.len() {
        let front = s.drop_last();
        assert(p(s[s.len() - 1]));
        assert forall|k: int| j <= k < front.len() implies p(#[trigger] front[k]) by {
            assert(p(s[k]));
        }
        lemma_trim_end(front, p, j);
        assert(front.take(j) =~= s.take(j));
    } else {
        assert(s.take(j) =~= s);
    }
}

proof fn lemma_trim_both(s: Seq<char>, p: spec_fn(char) -> bool, i: int, j: int)
    requires
        0 <= i <= j <= s.len(),
        forall|k: int| 0 <= k < i ==> p(#[trigger] s[k]),
        forall|k: int| j <= k < s.len() ==> p(#[trigger] s[k]),
        i < j ==> !p(s[i]) && !p(s[j - 1]),
    ensures
        trim_end(trim_start(s, p), p) == s.subrange(i, j),
{
    if i < j {
        lemma_trim_start(s, p, i);
        let rest = s.skip(i);
        assert forall|k: int| j - i <= k < rest.len() implies p(#[trigger] rest[k]) by {
            assert(p(s[k + i]));
        }
        assert(rest[j - i - 1] == s[j - 1]);
        lemma_trim_end(rest, p, j - i);
        assert(rest.take(j - i) =~= s.subrange(i, j));
    } else {
        assert forall|k: int| 0 <= k < s.len() implies p(#[trigger] s[k]) by {}
        lemma_trim_start(s, p, s.len() as int);
        let rest = s.skip(s.len() as int);
        lemma_trim_end(rest, p, 0);
        assert(rest.take(0) =~= s.subrange(i, j));
    }
}

/// Trimming leaves what stands between the white space, or nothing where there is
/// nothing else.
pub proof fn law_trimmed(core: Seq<char>, s: Seq<char>, i: int, j: int)
    requires
        stands_in(core, s, i, j),
    ensures
        trimmed(s) == core,
{
    let p = |c: char| is_white_space(c);
    if i < j {
        assert(core[0] == s[i]);
        assert(core.last() == s[j - 1]);
    }
    lemma_trim_both(s, p, i, j);
}

/// Without its backticks a text is what stands between them.
pub proof fn law_unticked(core: Seq<char>, s: Seq<char>, i: int, j: int)
    requires
        ticked_in(core, s, i, j),
    ensures
        unticked(s) == core,
{
    let p = |c: char| c == '`';
    if i < j {
        assert(core[0] == s[i]);
        assert(core.last() == s[j - 1]);
    }
    lemma_trim_both(s, p, i, j);
}

/// A line of the table is read from its cells: the transaction in the fifth, which has
/// to be 64 bytes long, its role in the third and its broadcaster in the fourth.
pub proof fn law_row_is_read(
    line: Seq<char>,
    cells: Seq<Seq<char>>,
    role: Seq<char>,
    by: Seq<char>,
    txid: Seq<char>,
    at: (int, int, int, int, int, int),
)
    requires
        line.len() >= 2 && line[0] == '|' && line[1] == ' ',
        cells == split_spec(line, '|'),
        cells.len() >= 5,
        stands_in(role, cells[2], at.0, at.1),
        stands_in(by, cells[3], at.2, at.3),
        stands_in(txid, cells[4], at.4, at.5),
    ensures
        encode_utf8(unticked(txid)).len() == 64 ==> row_of(line) == Some(
            (
                unticked(txid),
                if by.len() == 0 {
                    unticked(role)
                } else {
                    unticked(role) + " by "@ + by
                },
            ),
        ),
        encode_utf8(unticked(txid)).len() != 64 ==> row_of(line) is None,
{
    law_trimmed(role, cells[2], at.0, at.1);
    law_trimmed(by, cells[3], at.2, at.3);
    law_trimmed(txid, cells[4], at.4, at.5);
}

/// A line that does not start with a bar and a space, or has fewer than five cells, is
/// no row.
pub proof fn law_other_lines_are_no_rows(line: Seq<char>)
    requires
        line.len() < 2 || line[0] != '|' || line[1] != ' ' || split_spec(line, '|').len() < 5,
    ensures
        row_of(line) is None,
{
}

proof fn lemma_rows_extend(a: Seq<Seq<char>>, b: Seq<Seq<char>>, n: int)
    requires
        n <= a.len(),
        n <= b.len(),
        forall|i: int| 0 <= i < n ==> a[i] == b[i],
    ensures
        rows_of(a, n) == rows_of(b, n),
    decreases n,
{
    if n > 0 {
        lemma_rows_extend(a, b, n - 1);
    }
}

/// The lines of a report are read one by one: one more adds its row, if it is one,
/// behind the others.
pub proof fn law_rows_one_by_one(lines: Seq<Seq<char>>, line: Seq<char>)
    ensures
        rows_of(Seq::empty(), 0).len() == 0,
        rows_of(lines.push(line), lines.len() + 1int) == match row_of(line) {
            Some(row) => rows_of(lines, lines.len() as int).push(row),
            None => rows_of(lines, lines.len() as int),
        },
{
    lemma_rows_extend(lines, lines.push(line), lines.len() as int);
}

/// The role of a transaction is that of its last row, and it has none if it has no row.
pub proof fn law_last_row_names_the_role(
    rows: Seq<(Seq<char>, Seq<char>)>,
    txid: Seq<char>,
    k: int,
)
    requires
        -1 <= k < rows.len(),
        forall|j: int| k < j < rows.len() ==> (#[trigger] rows[j]).0 != txid,
        k >= 0 ==> rows[k].0 == txid,
    ensures
        role_spec(rows, txid) == if k >= 0 {
            Some(rows[k].1)
        } else {
            None
        },
    decreases rows.len(),
{
    if rows.len() > 0 && k < rows.len() - 1 {
        let front = rows.drop_last();
        assert(rows[rows.len() - 1].0 != txid);
        assert forall|j: int| k < j < front.len() implies (#[trigger] front[j]).0 != txid by {
            assert(rows[j].0 != txid);
        }
        law_last_row_names_the_role(front, txid, k);
    }
}

/// The pieces and rows as mathematical values are the pieces and rows, one by one.
pub proof fn law_views(texts: Seq<&str>, rows: Seq<RoleRow>, i: int)
    ensures
        str_views(texts).len() == texts.len(),
        row_views(rows).len() == rows.len(),
        0 <= i < texts.len() ==> str_views(texts)[i] == texts[i]@,
        0 <= i < rows.len() ==> row_views(rows)[i].0 == rows[i].txid@ && row_views(rows)[i].1
            == rows[i].role@,
{
}

} // verus!
