//! Character-level text primitives shared by the tokenizer and the
//! serializer: whitespace trimming, first-occurrence search, and splitting
//! text into lines (joining them back), each specified over `Seq<char>`.

use vstd::prelude::*;

verus! {

/// Whitespace for trimming purposes: the ASCII blank characters.
pub open spec fn is_space(c: char) -> bool {
    c == ' ' || c == '\t' || c == '\r' || c == '\n' || c == '\u{b}' || c == '\u{c}'
}

/// Executable twin of `is_space`.
pub fn space_char(c: char) -> (r: bool)
    ensures
        r == is_space(c),
{
    c == ' ' || c == '\t' || c == '\r' || c == '\n' || c == '\u{b}' || c == '\u{c}'
}

/// Index of the first non-space character of `s` (`s.len()` if none).
pub open spec fn start_idx(s: Seq<char>) -> int
    decreases s.len(),
{
    if s.len() == 0 {
        0
    } else if is_space(s[0]) {
        1 + start_idx(s.drop_first())
    } else {
        0
    }
}

/// One past the last non-space character of `s` (`0` if none).
pub open spec fn end_idx(s: Seq<char>) -> int
    decreases s.len(),
{
    if s.len() == 0 {
        0
    } else if is_space(s.last()) {
        end_idx(s.drop_last())
    } else {
        s.len() as int
    }
}

/// `s` with leading and trailing whitespace removed.
pub open spec fn spec_trim(s: Seq<char>) -> Seq<char> {
    if start_idx(s) <= end_idx(s) {
        s.subrange(start_idx(s), end_idx(s))
    } else {
        Seq::empty()
    }
}

pub proof fn lemma_start_idx(s: Seq<char>)
    ensures
        0 <= start_idx(s) <= s.len(),
        forall|j: int| 0 <= j < start_idx(s) ==> is_space(s[j]),
        start_idx(s) < s.len() ==> !is_space(s[start_idx(s)]),
    decreases s.len(),
{
    if s.len() > 0 && is_space(s[0]) {
        lemma_start_idx(s.drop_first());
        assert forall|j: int| 0 <= j < start_idx(s) implies is_space(s[j]) by {
            if j > 0 {
                assert(s.drop_first()[j - 1] == s[j]);
            }
        }
    }
}

pub proof fn lemma_end_idx(s: Seq<char>)
    ensures
        0 <= end_idx(s) <= s.len(),
        forall|j: int| end_idx(s) <= j < s.len() ==> is_space(s[j]),
        end_idx(s) > 0 ==> !is_space(s[end_idx(s) - 1]),
    decreases s.len(),
{
    if s.len() > 0 && is_space(s.last()) {
        lemma_end_idx(s.drop_last());
        assert forall|j: int| end_idx(s) <= j < s.len() implies is_space(s[j]) by {
            if j < s.len() - 1 {
                assert(s.drop_last()[j] == s[j]);
            }
        }
    }
}

/// The characterizations above pin `start_idx` and `end_idx` down uniquely.
pub proof fn lemma_start_idx_is(s: Seq<char>, j: int)
    requires
        0 <= j <= s.len(),
        forall|k: int| 0 <= k < j ==> is_space(s[k]),
        j < s.len() ==> !is_space(s[j]),
    ensures
        start_idx(s) == j,
{
    lemma_start_idx(s);
    if start_idx(s) < j {
        assert(is_space(s[start_idx(s)]));
    } else if start_idx(s) > j {
        assert(is_space(s[j]));
    }
}

pub proof fn lemma_end_idx_is(s: Seq<char>, j: int)
    requires
        0 <= j <= s.len(),
        forall|k: int| j <= k < s.len() ==> is_space(s[k]),
        j > 0 ==> !is_space(s[j - 1]),
    ensures
        end_idx(s) == j,
{
    lemma_end_idx(s);
    if end_idx(s) < j {
        assert(is_space(s[j - 1]));
    } else if end_idx(s) > j {
        assert(is_space(s[end_idx(s) - 1]));
    }
}

/// Trimming leaves a string that trimming does not change further.
pub proof fn lemma_trim_stable(s: Seq<char>)
    ensures
        spec_trim(spec_trim(s)) == spec_trim(s),
{
    lemma_start_idx(s);
    lemma_end_idx(s);
    let t = spec_trim(s);
    if start_idx(s) <= end_idx(s) {
        if t.len() > 0 {
            assert(!is_space(t[0]));
            assert(!is_space(t[t.len() - 1]));
            lemma_start_idx_is(t, 0);
            lemma_end_idx_is(t, t.len() as int);
            assert(spec_trim(t) =~= t);
        } else {
            lemma_start_idx_is(t, 0);
            lemma_end_idx_is(t, 0);
            assert(spec_trim(t) =~= t);
        }
    } else {
        lemma_start_idx_is(t, 0);
        lemma_end_idx_is(t, 0);
        assert(spec_trim(t) =~= t);
    }
}

/// A trimmed string neither starts nor ends with whitespace.
pub proof fn lemma_trim_no_edge_space(s: Seq<char>)
    ensures
        spec_trim(s).len() > 0 ==> !is_space(spec_trim(s)[0]),
        spec_trim(s).len() > 0 ==> !is_space(spec_trim(s).last()),
{
    lemma_start_idx(s);
    lemma_end_idx(s);
}

/// Trim `s`, relating the result exactly to `spec_trim`.
pub fn trim(s: &str) -> (r: &str)
    ensures
        r@ == spec_trim(s@),
{
    let n = s.unicode_len();
    let mut i: usize = 0;
    while i < n && space_char(s.get_char(i))
        invariant
            0 <= i <= n,
            n == s@.len(),
            forall|k: int| 0 <= k < i ==> is_space(s@[k]),
        decreases n - i,
    {
        i = i + 1;
    }
    proof {
        lemma_start_idx_is(s@, i as int);
    }
    let mut j: usize = n;
    while j > i && space_char(s.get_char(j - 1))
        invariant
            i <= j <= n,
            n == s@.len(),
            forall|k: int| j <= k < n ==> is_space(s@[k]),
        decreases j,
    {
        j = j - 1;
    }
    if j == i {
        // everything from i on is whitespace, so i must be s.len()
        proof {
            if i < n {
                assert(!is_space(s@[i as int]));
                assert(is_space(s@[i as int]));
            }
            lemma_end_idx_is(s@, 0);
        }
        let r = s.substring_char(i, j);
        proof {
            assert(r@ =~= spec_trim(s@));
        }
        r
    } else {
        proof {
            lemma_end_idx_is(s@, j as int);
        }
        let r = s.substring_char(i, j);
        proof {
            assert(r@ =~= spec_trim(s@));
        }
        r
    }
}

/// Index of the first occurrence of `c` in `s` (`s.len()` if absent).
pub open spec fn find_char(s: Seq<char>, c: char) -> int
    decreases s.len(),
{
    if s.len() == 0 {
        0
    } else if s[0] == c {
        0
    } else {
        1 + find_char(s.drop_first(), c)
    }
}

pub proof fn lemma_find_char(s: Seq<char>, c: char)
    ensures
        0 <= find_char(s, c) <= s.len(),
        forall|j: int| 0 <= j < find_char(s, c) ==> s[j] != c,
        find_char(s, c) < s.len() ==> s[find_char(s, c)] == c,
        s.contains(c) <==> find_char(s, c) < s.len(),
    decreases s.len(),
{
    if s.len() > 0 && s[0] != c {
        lemma_find_char(s.drop_first(), c);
        assert forall|j: int| 0 <= j < find_char(s, c) implies s[j] != c by {
            if j > 0 {
                assert(s.drop_first()[j - 1] == s[j]);
            }
        }
        if s.drop_first().contains(c) {
            let w = choose|w: int| 0 <= w < s.drop_first().len() && s.drop_first()[w] == c;
            assert(s[w + 1] == c);
        }
        if s.contains(c) {
            let w = choose|w: int| 0 <= w < s.len() && s[w] == c;
            assert(w > 0);
            assert(s.drop_first()[w - 1] == c);
        }
    } else if s.len() > 0 {
        assert(s.contains(c));
    } else {
        if s.contains(c) {
            let w = choose|w: int| 0 <= w < s.len() && s[w] == c;
        }
    }
}

pub proof fn lemma_find_char_is(s: Seq<char>, c: char, j: int)
    requires
        0 <= j <= s.len(),
        forall|k: int| 0 <= k < j ==> s[k] != c,
        j < s.len() ==> s[j] == c,
    ensures
        find_char(s, c) == j,
{
    lemma_find_char(s, c);
    if find_char(s, c) < j {
        assert(s[find_char(s, c)] != c);
    } else if find_char(s, c) > j {
        assert(s[j] != c);
    }
}

/// First occurrence of `c` in `s`, if any.
pub fn index_of_char(s: &str, c: char) -> (r: Option<usize>)
    ensures
        match r {
            Some(i) => i == find_char(s@, c) && i < s@.len() && s@[i as int] == c,
            None => !s@.contains(c) && find_char(s@, c) == s@.len(),
        },
{
    let n = s.unicode_len();
    let mut i: usize = 0;
    while i < n && s.get_char(i) != c
        invariant
            0 <= i <= n,
            n == s@.len(),
            forall|k: int| 0 <= k < i ==> s@[k] != c,
        decreases n - i,
    {
        i = i + 1;
    }
    proof {
        lemma_find_char_is(s@, c, i as int);
        lemma_find_char(s@, c);
    }
    if i < n {
        Some(i)
    } else {
        None
    }
}

/// Does `s` start with the character `c`?
pub fn starts_with_char(s: &str, c: char) -> (r: bool)
    ensures
        r == (s@.len() > 0 && s@[0] == c),
{
    if s.unicode_len() == 0 {
        false
    } else {
        s.get_char(0) == c
    }
}

/// Does `s` end with the character `c`?
pub fn ends_with_char(s: &str, c: char) -> (r: bool)
    ensures
        r == (s@.len() > 0 && s@.last() == c),
{
    let n = s.unicode_len();
    if n == 0 {
        false
    } else {
        s.get_char(n - 1) == c
    }
}

/// Character-for-character string equality, i.e. equality of the views.
pub fn str_eq(a: &str, b: &str) -> (r: bool)
    ensures
        r == (a@ == b@),
{
    let n = a.unicode_len();
    if n != b.unicode_len() {
        proof {
            assert(a@ != b@);
        }
        return false;
    }
    let mut i: usize = 0;
    while i < n
        invariant
            0 <= i <= n,
            n == a@.len(),
            n == b@.len(),
            forall|k: int| 0 <= k < i ==> a@[k] == b@[k],
        decreases n - i,
    {
        if a.get_char(i) != b.get_char(i) {
            proof {
                assert(a@[i as int] != b@[i as int]);
            }
            return false;
        }
        i = i + 1;
    }
    proof {
        assert(a@ =~= b@);
    }
    true
}

/// `s` with a single trailing carriage return removed, if present.
pub open spec fn strip_cr(s: Seq<char>) -> Seq<char> {
    if s.len() > 0 && s.last() == '\r' {
        s.drop_last()
    } else {
        s
    }
}

/// The line decomposition of `s`: segments between newline characters, a
/// trailing carriage return stripped from each, and no empty segment after
/// a final newline.
pub open spec fn spec_lines(s: Seq<char>) -> Seq<Seq<char>>
    decreases s.len(),
    via spec_lines_decreases
{
    if s.len() == 0 {
        Seq::empty()
    } else {
        let i = find_char(s, '\n');
        if i == s.len() {
            seq![strip_cr(s)]
        } else {
            seq![strip_cr(s.take(i))] + spec_lines(s.skip(i + 1))
        }
    }
}

#[via_fn]
proof fn spec_lines_decreases(s: Seq<char>) {
    lemma_find_char(s, '\n');
}

/// The text whose lines are `ls`: each line followed by one newline.
pub open spec fn spec_unlines(ls: Seq<Seq<char>>) -> Seq<char>
    decreases ls.len(),
{
    if ls.len() == 0 {
        Seq::empty()
    } else {
        ls[0] + seq!['\n'] + spec_unlines(ls.drop_first())
    }
}

/// A string without whitespace at either edge is its own trim.
pub proof fn lemma_trim_id(s: Seq<char>)
    requires
        s.len() > 0 ==> !is_space(s[0]) && !is_space(s.last()),
    ensures
        spec_trim(s) == s,
{
    if s.len() == 0 {
        lemma_start_idx_is(s, 0);
        lemma_end_idx_is(s, 0);
        assert(spec_trim(s) =~= s);
    } else {
        lemma_start_idx_is(s, 0);
        lemma_end_idx_is(s, s.len() as int);
        assert(spec_trim(s) =~= s);
    }
}

/// A leading space never survives trimming.
pub proof fn lemma_trim_drop_leading_space(s: Seq<char>)
    ensures
        spec_trim(seq![' '] + s) == spec_trim(s),
{
    let t = seq![' '] + s;
    lemma_start_idx(s);
    lemma_end_idx(s);
    assert forall|j: int| 0 <= j < 1 + start_idx(s) implies is_space(t[j]) by {
        if j > 0 {
            assert(t[j] == s[j - 1]);
        }
    }
    if start_idx(s) < s.len() {
        assert(t[1 + start_idx(s)] == s[start_idx(s)]);
        lemma_start_idx_is(t, 1 + start_idx(s));
    } else {
        lemma_start_idx_is(t, 1 + start_idx(s));
    }
    let e = end_idx(s);
    if e > 0 {
        assert forall|j: int| 1 + e <= j < t.len() implies is_space(t[j]) by {
            assert(t[j] == s[j - 1]);
        }
        assert(t[e] == s[e - 1]);
        lemma_end_idx_is(t, 1 + e);
        assert(spec_trim(t) =~= spec_trim(s));
    } else {
        // s is entirely whitespace, and so is t
        assert forall|j: int| 1 <= j < t.len() implies is_space(t[j]) by {
            assert(t[j] == s[j - 1]);
        }
        lemma_end_idx_is(t, 0);
        assert(spec_trim(t) =~= spec_trim(s));
    }
}

/// Cutting the trailing whitespace off does not change the trim.
pub proof fn lemma_trim_take_end(s: Seq<char>)
    ensures
        spec_trim(s.take(end_idx(s))) == spec_trim(s),
{
    lemma_start_idx(s);
    lemma_end_idx(s);
    let e = end_idx(s);
    let t = s.take(e);
    if start_idx(s) < e {
        assert forall|j: int| 0 <= j < start_idx(s) implies is_space(t[j]) by {
            assert(t[j] == s[j]);
        }
        assert(t[start_idx(s)] == s[start_idx(s)]);
        lemma_start_idx_is(t, start_idx(s));
        if e > 0 {
            assert(t.last() == s[e - 1]);
            lemma_end_idx_is(t, e);
        }
        assert(spec_trim(t) =~= spec_trim(s));
    } else {
        // the trim of s is empty: everything below end_idx is whitespace
        assert forall|j: int| 0 <= j < t.len() implies is_space(t[j]) by {
            assert(t[j] == s[j]);
            assert(j < start_idx(s));
        }
        lemma_start_idx_is(t, t.len() as int);
        lemma_end_idx_is(t, 0);
        assert(spec_trim(t) =~= Seq::<char>::empty());
        assert(spec_trim(s) =~= Seq::<char>::empty());
    }
}

/// A word with clean edges keeps exactly itself when a space is appended.
pub proof fn lemma_trim_pad_right(k: Seq<char>)
    requires
        k.len() > 0,
        !is_space(k[0]),
        !is_space(k.last()),
    ensures
        spec_trim(k + seq![' ']) == k,
{
    let t = k + seq![' '];
    lemma_start_idx_is(t, 0);
    assert forall|j: int| k.len() <= j < t.len() implies is_space(t[j]) by {
    }
    assert(t[k.len() - 1] == k.last());
    lemma_end_idx_is(t, k.len() as int);
    assert(spec_trim(t) =~= k);
}

/// What remains of a comment-prefixed line when the `#` and the whitespace
/// around it are stripped: the trim of the rest of the line.
pub proof fn lemma_commented_line(rest: Seq<char>)
    requires
        rest.len() > 0 ==> !is_space(rest[0]),
    ensures
        spec_trim("# "@ + rest).len() > 0,
        spec_trim("# "@ + rest)[0] == '#',
        spec_trim(spec_trim("# "@ + rest).drop_first()) == spec_trim(rest),
{
    reveal_strlit("# ");
    let line = "# "@ + rest;
    assert(line[0] == '#');
    assert(line[1] == ' ');
    lemma_start_idx_is(line, 0);
    lemma_end_idx(rest);
    let e = end_idx(rest);
    if e > 0 {
        assert forall|j: int| 2 + e <= j < line.len() implies is_space(line[j]) by {
            assert(line[j] == rest[j - 2]);
        }
        assert(line[2 + e - 1] == rest[e - 1]);
        lemma_end_idx_is(line, 2 + e);
        let trimmed = spec_trim(line);
        assert(trimmed == line.subrange(0, 2 + e));
        assert(trimmed.len() > 0 && trimmed[0] == '#');
        assert(trimmed.drop_first() =~= seq![' '] + rest.take(e));
        lemma_trim_drop_leading_space(rest.take(e));
        lemma_trim_take_end(rest);
    } else {
        // the rest is all whitespace, so only the `#` survives
        assert forall|j: int| 1 <= j < line.len() implies is_space(line[j]) by {
            if j >= 2 {
                assert(line[j] == rest[j - 2]);
                assert(is_space(rest[j - 2])) by {
                    lemma_end_idx(rest);
                }
            }
        }
        lemma_end_idx_is(line, 1);
        let trimmed = spec_trim(line);
        assert(trimmed =~= seq!['#']);
        assert(trimmed.drop_first() =~= Seq::<char>::empty());
        lemma_start_idx_is(Seq::<char>::empty(), 0);
        lemma_end_idx_is(Seq::<char>::empty(), 0);
        assert(spec_trim(Seq::<char>::empty()) =~= Seq::<char>::empty());
        assert(spec_trim(rest) =~= Seq::<char>::empty()) by {
            lemma_start_idx(rest);
            if start_idx(rest) < rest.len() {
                assert(is_space(rest[start_idx(rest)]));
            }
            if rest.len() > 0 {
                assert(is_space(rest[0]));
            }
            assert(rest.len() == 0);
            lemma_start_idx_is(rest, 0);
            lemma_end_idx_is(rest, 0);
        }
    }
}

/// Trimming cannot introduce a character.
pub proof fn lemma_trim_keeps_absent(s: Seq<char>, c: char)
    requires
        !s.contains(c),
    ensures
        !spec_trim(s).contains(c),
{
    lemma_start_idx(s);
    lemma_end_idx(s);
    if spec_trim(s).contains(c) {
        let w = choose|w: int| 0 <= w < spec_trim(s).len() && spec_trim(s)[w] == c;
        assert(s[start_idx(s) + w] == c);
    }
}

/// A subrange cannot introduce a character.
pub proof fn lemma_subrange_keeps_absent(s: Seq<char>, c: char, a: int, b: int)
    requires
        0 <= a <= b <= s.len(),
        !s.contains(c),
    ensures
        !s.subrange(a, b).contains(c),
{
    if s.subrange(a, b).contains(c) {
        let w = choose|w: int| 0 <= w < s.subrange(a, b).len() && s.subrange(a, b)[w] == c;
        assert(s[a + w] == c);
    }
}

/// No line of the line decomposition contains a newline.
pub proof fn lemma_lines_no_newline(s: Seq<char>)
    ensures
        forall|i: int|
            0 <= i < spec_lines(s).len() ==> !(#[trigger] spec_lines(s)[i]).contains('\n'),
    decreases s.len(),
{
    lemma_find_char(s, '\n');
    if s.len() > 0 {
        let i = find_char(s, '\n');
        let first = if i == s.len() as int {
            strip_cr(s)
        } else {
            strip_cr(s.take(i))
        };
        assert(!first.contains('\n')) by {
            if first.contains('\n') {
                let w = choose|w: int| 0 <= w < first.len() && first[w] == '\n';
                assert(s[w] == '\n');
                assert(w < i);
            }
        }
        if i < s.len() {
            lemma_lines_no_newline(s.skip(i + 1));
            assert forall|j: int|
                0 <= j < spec_lines(s).len() implies !(#[trigger] spec_lines(s)[j]).contains(
                '\n',
            ) by {
                if j > 0 {
                    assert(spec_lines(s)[j] == spec_lines(s.skip(i + 1))[j - 1]);
                }
            }
        }
    }
}

/// The view of the newline literal is the one-character sequence.
pub proof fn lemma_nl()
    ensures
        "\n"@ == seq!['\n'],
{
    reveal_strlit("\n");
    assert("\n"@ =~= seq!['\n']);
}

/// Joining distributes over concatenation of line sequences.
pub proof fn lemma_unlines_concat(a: Seq<Seq<char>>, b: Seq<Seq<char>>)
    ensures
        spec_unlines(a + b) == spec_unlines(a) + spec_unlines(b),
    decreases a.len(),
{
    if a.len() == 0 {
        assert(a + b =~= b);
        assert(spec_unlines(a) + spec_unlines(b) =~= spec_unlines(b));
    } else {
        assert((a + b).drop_first() =~= a.drop_first() + b);
        lemma_unlines_concat(a.drop_first(), b);
        assert(spec_unlines(a + b) =~= spec_unlines(a) + spec_unlines(b));
    }
}

/// Joining a single line appends exactly one newline.
pub proof fn lemma_unlines_one(x: Seq<char>)
    ensures
        spec_unlines(seq![x]) == x + seq!['\n'],
{
    reveal_with_fuel(spec_unlines, 2);
    assert(seq![x].drop_first() =~= Seq::<Seq<char>>::empty());
    assert(spec_unlines(seq![x].drop_first()) == Seq::<char>::empty());
    assert(spec_unlines(seq![x]) =~= x + seq!['\n']);
}

/// Splitting joined lines gives the lines back, provided no line contains a
/// newline or ends with a carriage return.
pub proof fn lemma_lines_unlines(ls: Seq<Seq<char>>)
    requires
        forall|i: int| 0 <= i < ls.len() ==> !(#[trigger] ls[i]).contains('\n'),
        forall|i: int| 0 <= i < ls.len() ==> ((#[trigger] ls[i]).len() > 0 ==> ls[i].last() != '\r'),
    ensures
        spec_lines(spec_unlines(ls)) == ls,
    decreases ls.len(),
{
    if ls.len() > 0 {
        let s = spec_unlines(ls);
        let l0 = ls[0];
        assert(s.len() == l0.len() + 1 + spec_unlines(ls.drop_first()).len());
        assert forall|k: int| 0 <= k < l0.len() implies s[k] != '\n' by {
            assert(s[k] == l0[k]);
            if l0[k] == '\n' {
                assert(l0.contains('\n'));
            }
        }
        assert(s[l0.len() as int] == '\n');
        lemma_find_char_is(s, '\n', l0.len() as int);
        assert(s.take(l0.len() as int) =~= l0);
        assert(strip_cr(l0) == l0);
        assert(s.skip(l0.len() as int + 1) =~= spec_unlines(ls.drop_first()));
        assert forall|i: int| 0 <= i < ls.drop_first().len() implies !(
        #[trigger] ls.drop_first()[i]).contains('\n') by {
            assert(ls.drop_first()[i] == ls[i + 1]);
        }
        assert forall|i: int| 0 <= i < ls.drop_first().len() implies ((
        #[trigger] ls.drop_first()[i]).len() > 0 ==> ls.drop_first()[i].last() != '\r') by {
            assert(ls.drop_first()[i] == ls[i + 1]);
        }
        lemma_lines_unlines(ls.drop_first());
        assert(spec_lines(s) =~= ls);
    } else {
        assert(spec_lines(spec_unlines(ls)) =~= ls);
    }
}

/// Split `s` into its lines, as owned strings.
pub fn split_lines(s: &str) -> (r: Vec<String>)
    ensures
        r.deep_view() == spec_lines(s@),
{
    let n = s.unicode_len();
    let mut acc: Vec<String> = Vec::new();
    let mut pos: usize = 0;
    proof {
        assert(s@.skip(0) =~= s@);
        assert(acc.deep_view() =~= Seq::<Seq<char>>::empty());
        assert(acc.deep_view() + spec_lines(s@) =~= spec_lines(s@));
    }
    while pos < n
        invariant
            0 <= pos <= n,
            n == s@.len(),
            spec_lines(s@) == acc.deep_view() + spec_lines(s@.skip(pos as int)),
        decreases n - pos,
    {
        let ghost rest = s@.skip(pos as int);
        // find the next newline at or after pos
        let mut i: usize = pos;
        while i < n && s.get_char(i) != '\n'
            invariant
                pos <= i <= n,
                n == s@.len(),
                forall|k: int| pos <= k < i ==> s@[k] != '\n',
            decreases n - i,
        {
            i = i + 1;
        }
        proof {
            assert forall|k: int| 0 <= k < i - pos implies rest[k] != '\n' by {
                assert(rest[k] == s@[pos + k]);
            }
            if i < n {
                assert(rest[i - pos] == '\n');
            }
            lemma_find_char_is(rest, '\n', i - pos);
        }
        // the segment is s[pos..i]; strip one trailing '\r'
        let mut stop: usize = i;
        if stop > pos && s.get_char(stop - 1) == '\r' {
            stop = stop - 1;
        }
        let line = s.substring_char(pos, stop);
        let owned = line.to_owned();
        proof {
            assert(owned@ =~= strip_cr(s@.subrange(pos as int, i as int)));
        }
        let ghost old_acc = acc.deep_view();
        acc.push(owned);
        proof {
            assert(acc.deep_view() =~= old_acc.push(owned@));
        }
        let newpos = if i < n {
            i + 1
        } else {
            n
        };
        proof {
            if i < n {
                assert(rest.take(i - pos) =~= s@.subrange(pos as int, i as int));
                assert(rest.skip(i - pos + 1) =~= s@.skip(newpos as int));
                assert(spec_lines(rest) == seq![strip_cr(s@.subrange(pos as int, i as int))]
                    + spec_lines(s@.skip(newpos as int)));
            } else {
                assert(rest =~= s@.subrange(pos as int, i as int));
                assert(spec_lines(rest) == seq![strip_cr(s@.subrange(pos as int, i as int))]);
                assert(spec_lines(s@.skip(newpos as int)) =~= Seq::<Seq<char>>::empty());
            }
            assert(acc.deep_view() + spec_lines(s@.skip(newpos as int)) =~= old_acc + spec_lines(
                s@.skip(pos as int),
            ));
        }
        pos = newpos;
    }
    proof {
        assert(s@.skip(pos as int) =~= Seq::<char>::empty());
        assert(acc.deep_view() =~= spec_lines(s@));
    }
    acc
}

} // verus!
