//! The column formats of AsciiDoc tables.

use crate::text::{
    lemma_leading_whitespace, line_end, to_chars, trim, trim_end, trim_end_index, whitespace,
};
use vstd::prelude::*;

verus! {

/// How the cells of a column are read.
#[derive(Debug, PartialEq, Eq, Clone, Copy)]
pub enum ColKind {
    /// As a paragraph.
    Default,
    /// As a document of its own.
    Asciidoc,
}

/// The format of one column.
#[derive(Debug, PartialEq, Eq, Clone, Copy)]
pub struct ColumnFormat {
    pub length: usize,
    pub kind: ColKind,
}

/// The format that a column specification names: `a` for cells that are
/// documents of their own, anything else for paragraphs.
pub open spec fn column_format(input: Seq<char>) -> ColumnFormat {
    ColumnFormat {
        length: 1,
        kind: if input == seq!['a'] {
            ColKind::Asciidoc
        } else {
            ColKind::Default
        },
    }
}

/// The first comma at or after `i`, or the length of `s`.
pub open spec fn piece_end(s: Seq<char>, i: int) -> int
    decreases s.len() - i,
{
    if 0 <= i < s.len() && s[i] != ',' {
        piece_end(s, i + 1)
    } else {
        i
    }
}

/// The formats that the specifications from position `i` on name: one
/// for each piece between commas, each piece without the white space
/// around it.
pub open spec fn formats_from(s: Seq<char>, i: int) -> Seq<ColumnFormat>
    decreases s.len() - i,
{
    if 0 <= i <= s.len() {
        let e = piece_end(s, i);
        if i <= e < s.len() {
            seq![column_format(trim(s.subrange(i, e)))] + formats_from(s, e + 1)
        } else {
            seq![column_format(trim(s.subrange(i, s.len() as int)))]
        }
    } else {
        seq![]
    }
}

/// How often `c` stands in `s[i..n]`.
pub open spec fn occurrences(s: Seq<char>, c: char, i: int, n: int) -> nat
    decreases n - i,
{
    if 0 <= i < n <= s.len() {
        (if s[i] == c {
            1nat
        } else {
            0nat
        }) + occurrences(s, c, i + 1, n)
    } else {
        0
    }
}

/// A paragraph column for each `|` of the first line.
pub open spec fn formats_of_content(s: Seq<char>) -> Seq<ColumnFormat> {
    Seq::new(
        occurrences(s, '|', 0, line_end(s, 0)),
        |i: int| ColumnFormat { length: 1, kind: ColKind::Default },
    )
}

/// The format that a column specification names.
pub fn parse_column_format(input: &str) -> (r: ColumnFormat)
    ensures
        r == column_format(input@),
{
    let v = to_chars(input);
    let is_a = v.len() == 1 && v[0] == 'a';
    assert(is_a == (v@ =~= seq!['a']));
    ColumnFormat {
        length: 1,
        kind: if is_a {
            ColKind::Asciidoc
        } else {
            ColKind::Default
        },
    }
}

fn format_of_piece(v: &Vec<char>, from: usize, to: usize) -> (r: ColumnFormat)
    requires
        from <= to <= v.len(),
    ensures
        r == column_format(trim(v@.subrange(from as int, to as int))),
{
    let ghost piece = v@.subrange(from as int, to as int);
    let e = trim_end_index(v, from, to);
    let ghost t = trim_end(piece);
    assert(t =~= v@.subrange(from as int, e as int));
    let mut b: usize = from;
    proof {
        lemma_leading_whitespace(t, 0);
    }
    while b < e && whitespace(v[b])
        invariant
            from <= b <= e <= to <= v.len(),
            t == v@.subrange(from as int, e as int),
            crate::text::leading_whitespace(t, 0) == crate::text::leading_whitespace(
                t,
                b - from,
            ),
        decreases e - b,
    {
        assert(t[b - from] == v@[b as int]);
        b += 1;
    }
    assert(b < e ==> t[b - from] == v@[b as int]);
    assert(trim(piece) =~= v@.subrange(b as int, e as int));
    let is_a = e - b == 1 && v[b] == 'a';
    assert(is_a == (v@.subrange(b as int, e as int) =~= seq!['a'])) by {
        if e - b == 1 {
            assert(v@.subrange(b as int, e as int)[0] == v@[b as int]);
        }
    }
    ColumnFormat {
        length: 1,
        kind: if is_a {
            ColKind::Asciidoc
        } else {
            ColKind::Default
        },
    }
}

/// The formats that comma-separated column specifications name.
pub fn parse_columns_format(input: &str) -> (r: Vec<ColumnFormat>)
    ensures
        r@ == formats_from(input@, 0),
{
    let v = to_chars(input);
    let mut r: Vec<ColumnFormat> = Vec::new();
    let mut i: usize = 0;
    loop
        invariant
            i <= v.len(),
            v@ == input@,
            r@ + formats_from(v@, i as int) == formats_from(v@, 0),
        decreases v.len() - i,
    {
        let ghost before = r@;
        let mut e: usize = i;
        while e < v.len() && v[e] != ','
            invariant
                i <= e <= v.len(),
                piece_end(v@, i as int) == piece_end(v@, e as int),
            decreases v.len() - e,
        {
            e += 1;
        }
        let format = format_of_piece(&v, i, e);
        r.push(format);
        if e < v.len() {
            assert(before.push(format) + formats_from(v@, e as int + 1) =~= before + formats_from(
                v@,
                i as int,
            ));
            i = e + 1;
        } else {
            assert(before.push(format) =~= before + formats_from(v@, i as int));
            return r;
        }
    }
}

/// The formats of the columns of a table whose content starts with this
/// line: one paragraph column for each `|`.
pub fn parse_columns_format_from_content(input: &str) -> (r: Vec<ColumnFormat>)
    ensures
        r@ == formats_of_content(input@),
{
    let v = to_chars(input);
    let mut r: Vec<ColumnFormat> = Vec::new();
    let mut i: usize = 0;
    proof {
        crate::text::lemma_line_end(v@, 0);
    }
    while i < v.len() && v[i] != '\n'
        invariant
            i <= v.len(),
            line_end(v@, 0) == line_end(v@, i as int),
            r@.len() + occurrences(v@, '|', i as int, line_end(v@, 0)) == occurrences(
                v@,
                '|',
                0,
                line_end(v@, 0),
            ),
            forall|k: int|
                0 <= k < r@.len() ==> r@[k] == (ColumnFormat { length: 1, kind: ColKind::Default }),
            i <= line_end(v@, 0) <= v.len(),
        decreases v.len() - i,
    {
        proof {
            crate::text::lemma_line_end(v@, i as int);
        }
        if v[i] == '|' {
            r.push(ColumnFormat { length: 1, kind: ColKind::Default });
        }
        i += 1;
    }
    proof {
        crate::text::lemma_line_end(v@, 0);
        assert(line_end(v@, i as int) == i);
        assert(r@ =~= formats_of_content(v@));
    }
    r
}

} // verus!
