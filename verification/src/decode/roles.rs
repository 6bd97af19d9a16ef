//! The roles of transactions, from the table of a scenario's report.

use vstd::prelude::*;
use vstd::string::{StrSliceExecFns, StringExecFns};
use vstd::utf8::encode_utf8;

verus! {

// ----- text -----

/// Whether a character is white space: whether it has Unicode's `White_Space`
/// property.
pub open spec fn is_white_space(c: char) -> bool {
    let n = c as u32;
    ||| 0x0009 <= n <= 0x000d
    ||| n == 0x0020
    ||| n == 0x0085
    ||| n == 0x00a0
    ||| n == 0x1680
    ||| 0x2000 <= n <= 0x200a
    ||| 0x2028 <= n <= 0x2029
    ||| n == 0x202f
    ||| n == 0x205f
    ||| n == 0x3000
}

/// Calls `char::is_whitespace`. The contract claims that it is true of exactly the
/// characters with the `White_Space` property, which [`is_white_space`] lists.
#[verifier::external_body]
pub(crate) fn char_is_white_space(c: char) -> (r: bool)
    ensures
        r == is_white_space(c),
{
    c.is_whitespace()
}

/// The pieces between separators: one more than there are separators.
pub open spec fn split_spec(s: Seq<char>, sep: char) -> Seq<Seq<char>>
    decreases s.len(),
{
    if s.len() == 0 {
        seq![s]
    } else {
        let before = split_spec(s.drop_last(), sep);
        if s.last() == sep {
            before.push(Seq::empty())
        } else {
            before.drop_last().push(before.last().push(s.last()))
        }
    }
}

/// A text without the characters at its start that have a property.
pub open spec fn trim_start(s: Seq<char>, p: spec_fn(char) -> bool) -> Seq<char>
    decreases s.len(),
{
    if s.len() > 0 && p(s[0]) {
        trim_start(s.skip(1), p)
    } else {
        s
    }
}

/// A text without the characters at its end that have a property.
pub open spec fn trim_end(s: Seq<char>, p: spec_fn(char) -> bool) -> Seq<char>
    decreases s.len(),
{
    if s.len() > 0 && p(s.last()) {
        trim_end(s.drop_last(), p)
    } else {
        s
    }
}

/// A text without white space at either end.
pub open spec fn trimmed(s: Seq<char>) -> Seq<char> {
    trim_end(trim_start(s, |c: char| is_white_space(c)), |c: char| is_white_space(c))
}

/// A text without backticks at either end.
pub open spec fn unticked(s: Seq<char>) -> Seq<char> {
    trim_end(trim_start(s, |c: char| c == '`'), |c: char| c == '`')
}

/// The views of texts.
pub open spec fn str_views(v: Seq<&str>) -> Seq<Seq<char>> {
    Seq::new(v.len(), |i: int| v[i]@)
}

/// Split at a separator.
fn split<'a>(s: &'a str, sep: char) -> (pieces: Vec<&'a str>)
    ensures
        str_views(pieces@) == split_spec(s@, sep),
{
    let mut pieces: Vec<&'a str> = Vec::new();
    let n: usize = s.unicode_len();
    let mut start: usize = 0;
    assert(s@.take(0) =~= Seq::<char>::empty());
    assert(str_views(pieces@).push(s@.subrange(0, 0)) =~= seq![s@.take(0)]);
    for i in 0..n
        invariant
            n == s@.len(),
            start <= i,
            str_views(pieces@).push(s@.subrange(start as int, i as int)) == split_spec(
                s@.take(i as int),
                sep,
            ),
    {
        let c: char = s.get_char(i);
        let ghost before = pieces@;
        let ghost open = s@.subrange(start as int, i as int);
        assert(s@.take(i + 1).drop_last() =~= s@.take(i as int));
        assert(str_views(before).push(open).drop_last() =~= str_views(before));
        if c == sep {
            let piece: &'a str = s.substring_char(start, i);
            pieces.push(piece);
            assert(str_views(pieces@) =~= str_views(before).push(open));
            start = i + 1;
            assert(s@.subrange(start as int, i + 1) =~= Seq::<char>::empty());
        } else {
            assert(s@.subrange(start as int, i + 1) =~= open.push(c));
        }
    }
    let ghost before = pieces@;
    assert(s@.take(n as int) =~= s@);
    let last: &'a str = s.substring_char(start, n);
    pieces.push(last);
    assert(str_views(pieces@) =~= str_views(before).push(last@));
    pieces
}

/// The text without white space at either end.
fn trim<'a>(s: &'a str) -> (t: &'a str)
    ensures
        t@ == trimmed(s@),
{
    let ghost p = |c: char| is_white_space(c);
    let n: usize = s.unicode_len();
    let mut a: usize = 0;
    assert(s@.skip(0) =~= s@);
    while a < n && char_is_white_space(s.get_char(a))
        invariant
            n == s@.len(),
            a <= n,
            p == |c: char| is_white_space(c),
            trim_start(s@.skip(a as int), p) == trim_start(s@, p),
        decreases n - a,
    {
        assert(s@.skip(a as int).skip(1) =~= s@.skip(a + 1));
        a = a + 1;
    }
    let ghost rest = s@.skip(a as int);
    assert(trim_start(s@, p) == rest);
    let mut b: usize = n;
    assert(rest =~= s@.subrange(a as int, n as int));
    while b > a && char_is_white_space(s.get_char(b - 1))
        invariant
            n == s@.len(),
            a <= b <= n,
            p == |c: char| is_white_space(c),
            trim_end(s@.subrange(a as int, b as int), p) == trim_end(rest, p),
        decreases b,
    {
        assert(s@.subrange(a as int, b as int).drop_last() =~= s@.subrange(a as int, b - 1));
        b = b - 1;
    }
    s.substring_char(a, b)
}

/// The text without backticks at either end.
fn trim_ticks<'a>(s: &'a str) -> (t: &'a str)
    ensures
        t@ == unticked(s@),
{
    let ghost p = |c: char| c == '`';
    let n: usize = s.unicode_len();
    let mut a: usize = 0;
    assert(s@.skip(0) =~= s@);
    while a < n && s.get_char(a) == '`'
        invariant
            n == s@.len(),
            a <= n,
            p == |c: char| c == '`',
            trim_start(s@.skip(a as int), p) == trim_start(s@, p),
        decreases n - a,
    {
        assert(s@.skip(a as int).skip(1) =~= s@.skip(a + 1));
        a = a + 1;
    }
    let ghost rest = s@.skip(a as int);
    assert(trim_start(s@, p) == rest);
    let mut b: usize = n;
    assert(rest =~= s@.subrange(a as int, n as int));
    while b > a && s.get_char(b - 1) == '`'
        invariant
            n == s@.len(),
            a <= b <= n,
            p == |c: char| c == '`',
            trim_end(s@.subrange(a as int, b as int), p) == trim_end(rest, p),
        decreases b,
    {
        assert(s@.subrange(a as int, b as int).drop_last() =~= s@.subrange(a as int, b - 1));
        b = b - 1;
    }
    s.substring_char(a, b)
}

// ----- the table -----

/// A transaction and its role.
#[derive(Debug, PartialEq, Eq)]
pub struct RoleRow {
    pub txid: String,
    pub role: String,
}

/// The row that a line of the report is, if it is one: it starts with `| `, has at
/// least five cells, and the fifth (the fourth of the table) is a transaction id
/// of 64 bytes, backticks aside. The role is in the third cell, and by whom, if by
/// anyone, in the fourth.
pub open spec fn row_of(line: Seq<char>) -> Option<(Seq<char>, Seq<char>)> {
    let cells = split_spec(line, '|');
    if line.len() >= 2 && line[0] == '|' && line[1] == ' ' && cells.len() >= 5 {
        let role = unticked(trimmed(cells[2]));
        let by = trimmed(cells[3]);
        let txid = unticked(trimmed(cells[4]));
        if encode_utf8(txid).len() == 64 {
            Some(
                (
                    txid,
                    if by.len() == 0 {
                        role
                    } else {
                        role + " by "@ + by
                    },
                ),
            )
        } else {
            None
        }
    } else {
        None
    }
}

/// The rows among the first `n` lines.
pub open spec fn rows_of(lines: Seq<Seq<char>>, n: int) -> Seq<(Seq<char>, Seq<char>)>
    decreases n,
{
    if n <= 0 {
        Seq::empty()
    } else {
        match row_of(lines[n - 1]) {
            Some(row) => rows_of(lines, n - 1).push(row),
            None => rows_of(lines, n - 1),
        }
    }
}

/// The views of rows.
pub open spec fn row_views(rows: Seq<RoleRow>) -> Seq<(Seq<char>, Seq<char>)> {
    Seq::new(rows.len(), |i: int| (rows[i].txid@, rows[i].role@))
}

fn read_row(line: &str) -> (row: Option<RoleRow>)
    ensures
        match row_of(line@) {
            Some((txid, role)) => row matches Some(r) && r.txid@ == txid && r.role@ == role,
            None => row is None,
        },
{
    if line.unicode_len() < 2 || line.get_char(0) != '|' || line.get_char(1) != ' ' {
        return None;
    }
    let cells: Vec<&str> = split(line, '|');
    assert(str_views(cells@).len() == cells@.len());
    if cells.len() < 5 {
        return None;
    }
    assert(str_views(cells@)[2] == cells@[2]@);
    assert(str_views(cells@)[3] == cells@[3]@);
    assert(str_views(cells@)[4] == cells@[4]@);
    let role: &str = trim_ticks(trim(cells[2]));
    let by: &str = trim(cells[3]);
    let txid: &str = trim_ticks(trim(cells[4]));
    if txid.as_bytes().len() != 64 {
        return None;
    }
    let text: String = if by.unicode_len() == 0 {
        String::from_str(role)
    } else {
        String::from_str(role).concat(" by ").concat(by)
    };
    Some(RoleRow { txid: String::from_str(txid), role: text })
}

/// The rows of a report's table, in order. The lines are what stands between line
/// feeds; a carriage return at the end of one is white space of its last cell.
pub fn scenario_roles(report: &str) -> (rows: Vec<RoleRow>)
    ensures
        row_views(rows@) == rows_of(
            split_spec(report@, '\n'),
            split_spec(report@, '\n').len() as int,
        ),
{
    let lines: Vec<&str> = split(report, '\n');
    let ghost all = split_spec(report@, '\n');
    let mut rows: Vec<RoleRow> = Vec::new();
    assert(row_views(rows@) =~= Seq::<(Seq<char>, Seq<char>)>::empty());
    for i in 0..lines.len()
        invariant
            all == str_views(lines@),
            row_views(rows@) == rows_of(all, i as int),
    {
        let ghost before = rows@;
        assert(all[i as int] == lines@[i as int]@);
        if let Some(row) = read_row(lines[i]) {
            rows.push(row);
            assert(row_views(rows@) =~= row_views(before).push((row.txid@, row.role@)));
        }
    }
    assert(str_views(lines@).len() == lines@.len());
    rows
}

/// The role of a transaction: that of its last row.
pub open spec fn role_spec(rows: Seq<(Seq<char>, Seq<char>)>, txid: Seq<char>) -> Option<Seq<char>>
    decreases rows.len(),
{
    if rows.len() == 0 {
        None
    } else if rows.last().0 == txid {
        Some(rows.last().1)
    } else {
        role_spec(rows.drop_last(), txid)
    }
}

/// The role of a transaction, if the table has one.
pub fn role_of(rows: &Vec<RoleRow>, txid: &String) -> (role: Option<String>)
    ensures
        match role_spec(row_views(rows@), txid@) {
            Some(text) => role matches Some(r) && r@ == text,
            None => role is None,
        },
{
    let ghost all = row_views(rows@);
    let n: usize = rows.len();
    assert(all.take(n as int) =~= all);
    for k in 0..n
        invariant
            n == rows@.len(),
            all == row_views(rows@),
            role_spec(all, txid@) == role_spec(all.take(n - k), txid@),
    {
        let i: usize = n - 1 - k;
        assert(all.take(n - k).drop_last() =~= all.take(i as int));
        assert(all.take(n - k).last() == all[i as int]);
        if rows[i].txid == *txid {
            return Some(rows[i].role.clone());
        }
    }
    None
}

} // verus!
