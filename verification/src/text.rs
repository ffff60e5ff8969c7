//! Tab-separated text: splitting a string into separator-delimited parts,
//! and splitting a file into its records (non-empty lines, with a trailing
//! carriage return stripped).

use vstd::prelude::*;
use vstd::string::*;

verus! {

/// The views of a vector of strings.
pub open spec fn views_of(v: Seq<String>) -> Seq<Seq<char>> {
    v.map_values(|x: String| x@)
}

/// Index of the first occurrence of `sep` in `s`, or `s.len()` if absent.
pub open spec fn first_idx(s: Seq<char>, sep: char) -> int
    decreases s.len(),
{
    if s.len() == 0 {
        0
    } else if s[0] == sep {
        0
    } else {
        1 + first_idx(s.drop_first(), sep)
    }
}

pub proof fn lemma_first_idx(s: Seq<char>, sep: char)
    ensures
        0 <= first_idx(s, sep) <= s.len(),
        first_idx(s, sep) < s.len() ==> s[first_idx(s, sep)] == sep,
        forall|k: int| 0 <= k < first_idx(s, sep) ==> s[k] != sep,
    decreases s.len(),
{
    if s.len() == 0 {
    } else if s[0] == sep {
    } else {
        lemma_first_idx(s.drop_first(), sep);
        assert forall|k: int| 0 <= k < first_idx(s, sep) implies s[k] != sep by {
            if k >= 1 {
                assert(s[k] == s.drop_first()[k - 1]);
            }
        }
    }
}

/// The first occurrence index is pinned by any witness scan: no separator
/// before `j`, and one at `j` unless `j` is the length.
pub proof fn lemma_first_idx_at(s: Seq<char>, sep: char, j: int)
    requires
        0 <= j <= s.len(),
        forall|k: int| 0 <= k < j ==> s[k] != sep,
        j < s.len() ==> s[j] == sep,
    ensures
        first_idx(s, sep) == j,
    decreases s.len(),
{
    if s.len() == 0 {
    } else if j == 0 {
    } else {
        assert(s[0] != sep);
        assert forall|k: int| 0 <= k < j - 1 implies s.drop_first()[k] != sep by {
            assert(s.drop_first()[k] == s[k + 1]);
        }
        if j - 1 < s.drop_first().len() {
            assert(s.drop_first()[j - 1] == s[j]);
        }
        lemma_first_idx_at(s.drop_first(), sep, j - 1);
    }
}

/// Split at every occurrence of `sep`; empty parts are kept, and the
/// result always has one part more than there are separators.
pub open spec fn spec_split(s: Seq<char>, sep: char) -> Seq<Seq<char>>
    decreases s.len(),
    via spec_split_decreases
{
    let j = first_idx(s, sep);
    if j == s.len() {
        seq![s]
    } else {
        seq![s.take(j)] + spec_split(s.skip(j + 1), sep)
    }
}

#[via_fn]
proof fn spec_split_decreases(s: Seq<char>, sep: char) {
    lemma_first_idx(s, sep);
}

/// No part of a split contains the separator.
pub proof fn lemma_split_parts_no_sep(s: Seq<char>, sep: char)
    ensures
        forall|i: int|
            0 <= i < spec_split(s, sep).len() ==> !(#[trigger] spec_split(s, sep)[i]).contains(sep),
    decreases s.len(),
{
    lemma_first_idx(s, sep);
    let j = first_idx(s, sep);
    assert forall|k: int| 0 <= k < j implies s.take(j)[k] != sep by {
        assert(s.take(j)[k] == s[k]);
    }
    if j == s.len() {
        assert(!s.contains(sep)) by {
            if s.contains(sep) {
                let w = choose|w: int| 0 <= w < s.len() && s[w] == sep;
                assert(s[w] != sep);
            }
        }
    } else {
        assert(!s.take(j).contains(sep)) by {
            if s.take(j).contains(sep) {
                let w = choose|w: int| 0 <= w < j && s.take(j)[w] == sep;
                assert(s.take(j)[w] != sep);
            }
        }
        lemma_split_parts_no_sep(s.skip(j + 1), sep);
        assert forall|i: int|
            0 <= i < spec_split(s, sep).len() implies !(#[trigger] spec_split(s, sep)[i]).contains(
            sep,
        ) by {
            if i >= 1 {
                assert(spec_split(s, sep)[i] == spec_split(s.skip(j + 1), sep)[i - 1]);
            }
        }
    }
}

/// A string without the separator splits into itself alone.
pub proof fn lemma_split_whole(a: Seq<char>, sep: char)
    requires
        !a.contains(sep),
    ensures
        spec_split(a, sep) == seq![a],
{
    assert forall|k: int| 0 <= k < a.len() implies a[k] != sep by {
        if a[k] == sep {
            assert(a.contains(sep));
        }
    }
    lemma_first_idx_at(a, sep, a.len() as int);
}

/// Splitting after a separator-free prefix: the prefix is the first part.
pub proof fn lemma_split_prepend(a: Seq<char>, b: Seq<char>, sep: char)
    requires
        !a.contains(sep),
    ensures
        spec_split(a + seq![sep] + b, sep) == seq![a] + spec_split(b, sep),
{
    let s = a + seq![sep] + b;
    assert forall|k: int| 0 <= k < a.len() implies s[k] != sep by {
        assert(s[k] == a[k]);
        if a[k] == sep {
            assert(a.contains(sep));
        }
    }
    assert(s[a.len() as int] == sep);
    lemma_first_idx_at(s, sep, a.len() as int);
    assert(s.take(a.len() as int) =~= a);
    assert(s.skip(a.len() as int + 1) =~= b);
}

/// Parts joined by a separator: the inverse of `spec_split`.
pub open spec fn spec_join(parts: Seq<Seq<char>>, sep: char) -> Seq<char>
    decreases parts.len(),
{
    if parts.len() == 0 {
        Seq::empty()
    } else if parts.len() == 1 {
        parts[0]
    } else {
        parts[0] + seq![sep] + spec_join(parts.drop_first(), sep)
    }
}

/// Serialize one record: its fields joined by tabs, ended by a newline.
pub fn tsv_line(fields: &Vec<String>) -> (s: String)
    requires
        fields@.len() >= 1,
    ensures
        s@ == spec_join(views_of(fields@), '\t') + seq!['\n'],
{
    proof {
        reveal_strlit("\t");
        reveal_strlit("\n");
    }
    let mut s = String::new();
    let mut i: usize = 0;
    while i < fields.len()
        invariant
            0 <= i <= fields@.len(),
            fields@.len() >= 1,
            i > 0 ==> s@ == spec_join(views_of(fields@).take(i as int), '\t'),
            i == 0 ==> s@ == Seq::<char>::empty(),
        decreases fields@.len() - i,
    {
        proof {
            reveal_strlit("\t");
        }
        if i > 0 {
            s.append("\t");
        }
        s.append(fields[i].as_str());
        proof {
            lemma_join_step(views_of(fields@), '\t', i as int);
            assert(views_of(fields@).take(i + 1).len() == i + 1);
            assert(views_of(fields@).take(i + 1)[i as int] == fields@[i as int]@);
            assert(s@ =~= spec_join(views_of(fields@).take(i + 1), '\t'));
        }
        i = i + 1;
    }
    proof {
        assert(views_of(fields@).take(fields@.len() as int) =~= views_of(fields@));
    }
    s.append("\n");
    proof {
        assert(s@ =~= spec_join(views_of(fields@), '\t') + seq!['\n']);
    }
    s
}

/// Extending a join by one part appends a separator and the part.
proof fn lemma_join_step(parts: Seq<Seq<char>>, sep: char, i: int)
    requires
        0 <= i < parts.len(),
    ensures
        i == 0 ==> spec_join(parts.take(1), sep) == parts[0],
        i > 0 ==> spec_join(parts.take(i + 1), sep) == spec_join(parts.take(i), sep) + seq![sep]
            + parts[i],
    decreases i,
{
    if i == 0 {
        assert(parts.take(1).len() == 1);
        assert(parts.take(1)[0] == parts[0]);
    } else {
        lemma_join_step(parts.drop_first(), sep, i - 1);
        assert(parts.take(i + 1).drop_first() =~= parts.drop_first().take(i));
        assert(parts.take(i).drop_first() =~= parts.drop_first().take(i - 1));
        assert(parts.take(i + 1)[0] == parts[0]);
        assert(parts.take(i)[0] == parts[0]);
        assert(parts.drop_first().take(i)[i - 1] == parts[i]);
        if i == 1 {
            assert(spec_join(parts.take(2), sep) == parts.take(2)[0] + seq![sep] + spec_join(
                parts.take(2).drop_first(),
                sep,
            ));
            assert(spec_join(parts.drop_first().take(1), sep) == parts[1]);
            assert(spec_join(parts.take(1), sep) == parts[0]);
        } else {
            assert(spec_join(parts.take(i + 1), sep) == parts[0] + seq![sep] + spec_join(
                parts.drop_first().take(i),
                sep,
            ));
            assert(spec_join(parts.take(i), sep) == parts[0] + seq![sep] + spec_join(
                parts.drop_first().take(i - 1),
                sep,
            ));
            assert(spec_join(parts.drop_first().take(i), sep) == spec_join(
                parts.drop_first().take(i - 1),
                sep,
            ) + seq![sep] + parts.drop_first()[i - 1]);
            assert(spec_join(parts.take(i + 1), sep) =~= spec_join(parts.take(i), sep) + seq![sep]
                + parts[i]);
        }
    }
}

/// A line with a final carriage return stripped.
pub open spec fn strip_cr(l: Seq<char>) -> Seq<char> {
    if l.len() > 0 && l.last() == '\r' {
        l.drop_last()
    } else {
        l
    }
}

/// The records of a tab-separated file: its newline-delimited lines, each
/// stripped of a final carriage return, with empty lines left out.
pub open spec fn csv_records(s: Seq<char>) -> Seq<Seq<char>>
    decreases s.len(),
    via csv_records_decreases
{
    let j = first_idx(s, '\n');
    if j == s.len() {
        if strip_cr(s).len() == 0 {
            seq![]
        } else {
            seq![strip_cr(s)]
        }
    } else {
        (if strip_cr(s.take(j)).len() == 0 {
            seq![]
        } else {
            seq![strip_cr(s.take(j))]
        }) + csv_records(s.skip(j + 1))
    }
}

#[via_fn]
proof fn csv_records_decreases(s: Seq<char>) {
    lemma_first_idx(s, '\n');
}

/// A string without leading spaces.
pub open spec fn trim_start(s: Seq<char>) -> Seq<char>
    decreases s.len(),
{
    if s.len() > 0 && s[0] == ' ' {
        trim_start(s.drop_first())
    } else {
        s
    }
}

/// A string without trailing spaces.
pub open spec fn trim_end(s: Seq<char>) -> Seq<char>
    decreases s.len(),
{
    if s.len() > 0 && s.last() == ' ' {
        trim_end(s.drop_last())
    } else {
        s
    }
}

/// A string without leading or trailing spaces.
pub open spec fn trim_spaces(s: Seq<char>) -> Seq<char> {
    trim_end(trim_start(s))
}

/// Strip leading and trailing spaces.
pub fn trimmed(s: &str) -> (t: String)
    ensures
        t@ == trim_spaces(s@),
{
    let n = s.unicode_len();
    let mut a: usize = 0;
    proof {
        assert(s@.skip(0) =~= s@);
    }
    while a < n && s.get_char(a) == ' '
        invariant
            0 <= a <= n,
            n == s@.len(),
            trim_start(s@) == trim_start(s@.skip(a as int)),
        decreases n - a,
    {
        proof {
            assert(s@.skip(a as int).drop_first() =~= s@.skip(a + 1));
        }
        a = a + 1;
    }
    proof {
        if a < n {
            assert(s@.skip(a as int)[0] == s@[a as int]);
        }
        assert(trim_start(s@) == s@.skip(a as int));
    }
    let mut b: usize = n;
    while b > a && s.get_char(b - 1) == ' '
        invariant
            a <= b <= n,
            n == s@.len(),
            trim_start(s@) == s@.skip(a as int),
            trim_end(s@.skip(a as int)) == trim_end(s@.subrange(a as int, b as int)),
        decreases b,
    {
        proof {
            assert(s@.subrange(a as int, b as int).last() == s@[b - 1]);
            assert(s@.subrange(a as int, b as int).drop_last() =~= s@.subrange(a as int, b - 1));
            assert(s@.skip(a as int) =~= s@.subrange(a as int, n as int));
        }
        b = b - 1;
    }
    proof {
        if b > a {
            assert(s@.subrange(a as int, b as int).last() == s@[b - 1]);
        }
        assert(trim_end(s@.subrange(a as int, b as int)) == s@.subrange(a as int, b as int));
        assert(s@.skip(a as int) =~= s@.subrange(a as int, n as int));
    }
    let t = s.substring_char(a, b).to_owned();
    proof {
        assert(t@ =~= trim_spaces(s@));
    }
    t
}

/// Scan for the first occurrence of `sep` at or after `start`.
pub(crate) fn scan_for(s: &str, n: usize, start: usize, sep: char) -> (j: usize)
    requires
        n == s@.len(),
        start <= n,
    ensures
        start <= j <= n,
        forall|k: int| start <= k < j ==> s@[k] != sep,
        j < n ==> s@[j as int] == sep,
{
    let mut j = start;
    while j < n
        invariant
            start <= j <= n,
            n == s@.len(),
            forall|k: int| start <= k < j ==> s@[k] != sep,
        decreases n - j,
    {
        if s.get_char(j) == sep {
            return j;
        }
        j = j + 1;
    }
    j
}

/// Split a string at every occurrence of `sep`, keeping empty parts.
pub fn split_at_char(s: &str, sep: char) -> (v: Vec<String>)
    ensures
        views_of(v@) == spec_split(s@, sep),
        v@.len() >= 1,
{
    let n = s.unicode_len();
    let mut v: Vec<String> = Vec::new();
    let mut start: usize = 0;
    let mut done = false;
    proof {
        assert(s@.skip(0) =~= s@);
        assert(views_of(v@) + spec_split(s@, sep) =~= spec_split(s@, sep));
    }
    while !done
        invariant
            n == s@.len(),
            !done ==> start <= n,
            !done ==> spec_split(s@, sep) == views_of(v@) + spec_split(
                s@.skip(start as int),
                sep,
            ),
            done ==> spec_split(s@, sep) == views_of(v@) && v@.len() >= 1,
        decreases n - start + (if done { 0int } else { 1int }),
    {
        let j = scan_for(s, n, start, sep);
        let part = s.substring_char(start, j).to_owned();
        proof {
            let t = s@.skip(start as int);
            assert forall|k: int| 0 <= k < j - start implies t[k] != sep by {
                assert(t[k] == s@[start + k]);
            }
            if j < n {
                assert(t[j - start] == s@[j as int]);
            }
            lemma_first_idx_at(t, sep, j - start);
            assert(t.take(j - start) =~= s@.subrange(start as int, j as int));
            assert(views_of(v@.push(part)) =~= views_of(v@).push(part@));
            if j < n {
                assert(t.skip(j - start + 1) =~= s@.skip(j + 1));
                assert(spec_split(t, sep) == seq![t.take(j - start)] + spec_split(
                    t.skip(j - start + 1),
                    sep,
                ));
                assert(views_of(v@.push(part)) + spec_split(s@.skip(j + 1), sep) =~= (views_of(v@)
                    + seq![part@]) + spec_split(s@.skip(j + 1), sep));
            } else {
                assert(t =~= s@.subrange(start as int, n as int));
                assert(spec_split(t, sep) == seq![t]);
                assert(views_of(v@.push(part)) =~= views_of(v@) + seq![part@]);
            }
        }
        v.push(part);
        if j < n {
            start = j + 1;
        } else {
            done = true;
        }
    }
    v
}

/// The records of a file: non-empty lines, each with a final carriage
/// return stripped.
pub fn records_of(s: &str) -> (v: Vec<String>)
    ensures
        views_of(v@) == csv_records(s@),
{
    let n = s.unicode_len();
    let mut v: Vec<String> = Vec::new();
    let mut start: usize = 0;
    let mut done = false;
    proof {
        assert(s@.skip(0) =~= s@);
        assert(views_of(v@) + csv_records(s@) =~= csv_records(s@));
    }
    while !done
        invariant
            n == s@.len(),
            !done ==> start <= n,
            !done ==> csv_records(s@) == views_of(v@) + csv_records(s@.skip(start as int)),
            done ==> csv_records(s@) == views_of(v@),
        decreases n - start + (if done { 0int } else { 1int }),
    {
        let j = scan_for(s, n, start, '\n');
        let mut end = j;
        if end > start && s.get_char(end - 1) == '\r' {
            end = end - 1;
        }
        proof {
            let t = s@.skip(start as int);
            assert forall|k: int| 0 <= k < j - start implies t[k] != '\n' by {
                assert(t[k] == s@[start + k]);
            }
            if j < n {
                assert(t[j - start] == s@[j as int]);
            }
            lemma_first_idx_at(t, '\n', j - start);
            let seg = if j < n {
                t.take(j - start)
            } else {
                t
            };
            assert(seg =~= s@.subrange(start as int, j as int));
            if j > start {
                assert(seg.last() == s@[j - 1]);
            }
            assert(strip_cr(seg) =~= s@.subrange(start as int, end as int));
            if j < n {
                assert(t.skip(j - start + 1) =~= s@.skip(j + 1));
            }
        }
        if end > start {
            let line = s.substring_char(start, end).to_owned();
            proof {
                assert(views_of(v@.push(line)) =~= views_of(v@).push(line@));
            }
            v.push(line);
        }
        if j < n {
            start = j + 1;
        } else {
            done = true;
        }
    }
    v
}

} // verus!
