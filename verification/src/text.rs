//! Text operations on strings, each specified over the characters of its
//! arguments (`Seq<char>`).
use vstd::prelude::*;

verus! {

broadcast use vstd::string::group_string_axioms;

/// The characters of `s`, in order.
pub fn chars_of(s: &str) -> (v: Vec<char>)
    ensures
        v@ == s@,
{
    let mut v: Vec<char> = Vec::new();
    for c in it: s.chars()
        invariant
            it.seq() == s@,
            v@ == it.seq().take(it.index()),
    {
        v.push(c);
    }
    v
}

/// A copy of `s` as an owned string.
pub fn owned(s: &str) -> (r: String)
    ensures
        r@ == s@,
{
    s.to_owned()
}

/// `a` followed by `b`.
pub fn concatenate(a: &str, b: &str) -> (r: String)
    ensures
        r@ == a@ + b@,
{
    let mut r = a.to_owned();
    r.append(b);
    r
}

/// Whether two strings hold the same characters.
pub fn str_eq(a: &str, b: &str) -> (r: bool)
    ensures
        r == (a@ == b@),
{
    let x = a.to_owned();
    let y = b.to_owned();
    x == y
}

/// Whether `c` occurs in `s`.
pub fn contains_char(s: &str, c: char) -> (r: bool)
    ensures
        r == s@.contains(c),
{
    let cs = chars_of(s);
    let n = cs.len();
    let mut i: usize = 0;
    while i < n
        invariant
            i <= n,
            n == s@.len(),
            cs@ == s@,
            forall|j: int| 0 <= j < i ==> s@[j] != c,
        decreases n - i,
    {
        if cs[i] == c {
            assert(s@[i as int] == c);
            return true;
        }
        i += 1;
    }
    false
}

/// Whether `p` is a prefix of `s`.
pub open spec fn has_prefix(s: Seq<char>, p: Seq<char>) -> bool {
    p.len() <= s.len() && s.subrange(0, p.len() as int) == p
}

/// Whether `s` starts with `p`.
pub fn starts_with(s: &str, p: &str) -> (r: bool)
    ensures
        r == has_prefix(s@, p@),
{
    let cs = chars_of(s);
    let ps = chars_of(p);
    let n = ps.len();
    if n > cs.len() {
        return false;
    }
    let mut i: usize = 0;
    while i < n
        invariant
            i <= n,
            n == p@.len(),
            n <= s@.len(),
            cs@ == s@,
            ps@ == p@,
            forall|j: int| 0 <= j < i ==> s@[j] == p@[j],
        decreases n - i,
    {
        if cs[i] != ps[i] {
            assert(s@.subrange(0, n as int)[i as int] != p@[i as int]);
            return false;
        }
        i += 1;
    }
    assert(s@.subrange(0, n as int) =~= p@);
    true
}

/// The part of `s` after the prefix `p`, when `s` starts with `p`.
pub fn strip_prefix(s: &str, p: &str) -> (r: Option<String>)
    ensures
        r is Some <==> has_prefix(s@, p@),
        r matches Some(t) ==> t@ == s@.skip(p@.len() as int),
{
    if starts_with(s, p) {
        let k = p.unicode_len();
        let n = s.unicode_len();
        let rest = s.substring_char(k, n);
        assert(s@.subrange(k as int, n as int) =~= s@.skip(k as int));
        Some(rest.to_owned())
    } else {
        None
    }
}

/// Unicode `White_Space`, the set of characters that `char::is_whitespace` accepts.
pub open spec fn is_white_space(c: char) -> bool {
    let u = c as u32;
    ||| 0x9 <= u <= 0xd
    ||| u == 0x20
    ||| u == 0x85
    ||| u == 0xa0
    ||| u == 0x1680
    ||| 0x2000 <= u <= 0x200a
    ||| u == 0x2028
    ||| u == 0x2029
    ||| u == 0x202f
    ||| u == 0x205f
    ||| u == 0x3000
}

/// Whether `c` is white space.
pub fn is_white_space_char(c: char) -> (r: bool)
    ensures
        r == is_white_space(c),
{
    let u = c as u32;
    (0x9 <= u && u <= 0xd) || u == 0x20 || u == 0x85 || u == 0xa0 || u == 0x1680 || (0x2000 <= u
        && u <= 0x200a) || u == 0x2028 || u == 0x2029 || u == 0x202f || u == 0x205f || u == 0x3000
}

/// `s` without its leading and trailing white space.
pub open spec fn trimmed(s: Seq<char>) -> Seq<char>
    decreases s.len(),
{
    if s.len() > 0 && is_white_space(s[0]) {
        trimmed(s.drop_first())
    } else if s.len() > 0 && is_white_space(s.last()) {
        trimmed(s.drop_last())
    } else {
        s
    }
}

/// `s` without its leading and trailing white space.
pub fn trim(s: &str) -> (r: String)
    ensures
        r@ == trimmed(s@),
{
    let cs = chars_of(s);
    let n = cs.len();
    let mut i: usize = 0;
    assert(s@.subrange(0, n as int) =~= s@);
    while i < n && is_white_space_char(cs[i])
        invariant
            i <= n,
            n == s@.len(),
            cs@ == s@,
            trimmed(s@.subrange(i as int, n as int)) == trimmed(s@),
        decreases n - i,
    {
        assert(s@.subrange(i as int, n as int).drop_first() =~= s@.subrange(i + 1, n as int));
        i += 1;
    }
    let mut j: usize = n;
    while j > i && is_white_space_char(cs[j - 1])
        invariant
            i <= j <= n,
            n == s@.len(),
            cs@ == s@,
            i < n ==> !is_white_space(s@[i as int]),
            trimmed(s@.subrange(i as int, j as int)) == trimmed(s@),
        decreases j - i,
    {
        let ghost t = s@.subrange(i as int, j as int);
        assert(t[0] == s@[i as int]);
        assert(t.drop_last() =~= s@.subrange(i as int, j - 1));
        j -= 1;
    }
    let ghost t = s@.subrange(i as int, j as int);
    if j > i {
        assert(t[0] == s@[i as int]);
        assert(t.last() == s@[j - 1]);
    }
    s.substring_char(i, j).to_owned()
}

/// `s` without its trailing white space.
pub open spec fn trimmed_end(s: Seq<char>) -> Seq<char>
    decreases s.len(),
{
    if s.len() > 0 && is_white_space(s.last()) {
        trimmed_end(s.drop_last())
    } else {
        s
    }
}

/// `s` without its trailing white space.
pub fn trim_end(s: &str) -> (r: String)
    ensures
        r@ == trimmed_end(s@),
{
    let cs = chars_of(s);
    let n = cs.len();
    let mut j: usize = n;
    assert(s@.subrange(0, n as int) =~= s@);
    while j > 0 && is_white_space_char(cs[j - 1])
        invariant
            j <= n,
            n == s@.len(),
            cs@ == s@,
            trimmed_end(s@.subrange(0, j as int)) == trimmed_end(s@),
        decreases j,
    {
        assert(s@.subrange(0, j as int).drop_last() =~= s@.subrange(0, j - 1));
        j -= 1;
    }
    s.substring_char(0, j).to_owned()
}

/// Where trimming cuts `s`: the trimmed text is `s[i..j]`, and everything
/// before `i` and from `j` on is white space.
proof fn trimmed_bounds(s: Seq<char>) -> (ij: (int, int))
    ensures
        0 <= ij.0 <= ij.1 <= s.len(),
        trimmed(s) == s.subrange(ij.0, ij.1),
        forall|x: int| 0 <= x < ij.0 ==> is_white_space(#[trigger] s[x]),
        forall|x: int| ij.1 <= x < s.len() ==> is_white_space(#[trigger] s[x]),
    decreases s.len(),
{
    if s.len() > 0 && is_white_space(s[0]) {
        let r = s.drop_first();
        let (i, j) = trimmed_bounds(r);
        assert(trimmed(s) == trimmed(r));
        assert(r.subrange(i, j) =~= s.subrange(i + 1, j + 1));
        assert forall|x: int| 0 <= x < i + 1 implies is_white_space(#[trigger] s[x]) by {
            if x > 0 {
                assert(s[x] == r[x - 1]);
            }
        }
        assert forall|x: int| j + 1 <= x < s.len() implies is_white_space(#[trigger] s[x]) by {
            assert(s[x] == r[x - 1]);
        }
        (i + 1, j + 1)
    } else if s.len() > 0 && is_white_space(s.last()) {
        let r = s.drop_last();
        let (i, j) = trimmed_bounds(r);
        assert(trimmed(s) == trimmed(r));
        assert(r.subrange(i, j) =~= s.subrange(i, j));
        assert forall|x: int| 0 <= x < i implies is_white_space(#[trigger] s[x]) by {
            assert(s[x] == r[x]);
        }
        assert forall|x: int| j <= x < s.len() implies is_white_space(#[trigger] s[x]) by {
            if x < s.len() - 1 {
                assert(s[x] == r[x]);
            }
        }
        (i, j)
    } else {
        assert(trimmed(s) =~= s.subrange(0, s.len() as int));
        (0, s.len() as int)
    }
}

/// The trimmed text neither starts nor ends with white space.
proof fn lemma_trimmed_ends(s: Seq<char>)
    ensures
        trimmed(s).len() > 0 ==> !is_white_space(trimmed(s)[0]) && !is_white_space(
            trimmed(s).last(),
        ),
    decreases s.len(),
{
    if s.len() > 0 && is_white_space(s[0]) {
        lemma_trimmed_ends(s.drop_first());
    } else if s.len() > 0 && is_white_space(s.last()) {
        lemma_trimmed_ends(s.drop_last());
    }
}

/// Trimming keeps a contiguous part of the text and removes only white
/// space around it, and the part it keeps neither starts nor ends with white
/// space.
pub proof fn lemma_trimmed_shape(s: Seq<char>)
    ensures
        exists|i: int, j: int|
            0 <= i <= j <= s.len() && trimmed(s) == s.subrange(i, j) && (forall|x: int|
                0 <= x < i ==> is_white_space(#[trigger] s[x])) && (forall|x: int|
                j <= x < s.len() ==> is_white_space(#[trigger] s[x])),
        trimmed(s).len() > 0 ==> !is_white_space(trimmed(s)[0]) && !is_white_space(
            trimmed(s).last(),
        ),
{
    let (i, j) = trimmed_bounds(s);
    lemma_trimmed_ends(s);
    assert(0 <= i <= j <= s.len() && trimmed(s) == s.subrange(i, j));
}

/// The pieces of `s` between occurrences of `sep`, as `str::split` yields them
/// for a single-character pattern: one more piece than there are separators.
pub open spec fn split_on(s: Seq<char>, sep: char) -> Seq<Seq<char>>
    decreases s.len(),
{
    if s.len() == 0 {
        seq![Seq::empty()]
    } else {
        let pieces = split_on(s.drop_last(), sep);
        if s.last() == sep {
            pieces.push(Seq::empty())
        } else {
            pieces.update(pieces.len() - 1, pieces.last().push(s.last()))
        }
    }
}

/// `split_on` always yields at least one piece.
pub proof fn lemma_split_on_nonempty(s: Seq<char>, sep: char)
    ensures
        split_on(s, sep).len() >= 1,
    decreases s.len(),
{
    if s.len() > 0 {
        lemma_split_on_nonempty(s.drop_last(), sep);
    }
}

/// The views of a sequence of strings.
pub open spec fn views(v: Seq<String>) -> Seq<Seq<char>> {
    v.map_values(|p: String| p@)
}

/// The pieces of `s` between occurrences of `sep`.
pub fn split(s: &str, sep: char) -> (parts: Vec<String>)
    ensures
        views(parts@) == split_on(s@, sep),
{
    let cs = chars_of(s);
    let n = cs.len();
    let mut parts: Vec<String> = Vec::new();
    let mut start: usize = 0;
    let mut i: usize = 0;
    assert(views(parts@).push(s@.subrange(0, 0)) =~= split_on(s@.take(0), sep)) by {
        assert(s@.take(0) =~= Seq::<char>::empty());
    }
    while i < n
        invariant
            start <= i <= n,
            n == s@.len(),
            cs@ == s@,
            views(parts@).push(s@.subrange(start as int, i as int)) == split_on(
                s@.take(i as int),
                sep,
            ),
        decreases n - i,
    {
        proof {
            assert(s@.take(i + 1).drop_last() =~= s@.take(i as int));
            lemma_split_on_nonempty(s@.take(i as int), sep);
        }
        let ghost prev = views(parts@);
        let ghost pieces = split_on(s@.take(i as int), sep);
        assert(s@.take(i + 1).last() == s@[i as int]);
        assert(pieces.last() == s@.subrange(start as int, i as int));
        if cs[i] == sep {
            let piece = s.substring_char(start, i).to_owned();
            parts.push(piece);
            assert(views(parts@) =~= prev.push(s@.subrange(start as int, i as int)));
            start = i + 1;
            assert(s@.subrange(start as int, i + 1) =~= Seq::<char>::empty());
            assert(views(parts@).push(s@.subrange(start as int, i + 1)) =~= split_on(
                s@.take(i + 1),
                sep,
            ));
        } else {
            assert(s@.subrange(start as int, i + 1) =~= s@.subrange(start as int, i as int).push(
                s@[i as int],
            ));
            assert(views(parts@).push(s@.subrange(start as int, i + 1)) =~= split_on(
                s@.take(i + 1),
                sep,
            ));
        }
        i += 1;
    }
    let ghost prev = views(parts@);
    let last = s.substring_char(start, n).to_owned();
    parts.push(last);
    assert(views(parts@) =~= prev.push(s@.subrange(start as int, n as int)));
    assert(s@.take(n as int) =~= s@);
    parts
}

/// Joining the pieces of a split with the separator gives back the text.
pub proof fn lemma_join_split(s: Seq<char>, sep: char)
    ensures
        joined(split_on(s, sep), seq![sep]) == s,
    decreases s.len(),
{
    if s.len() > 0 {
        let p = split_on(s.drop_last(), sep);
        lemma_split_on_nonempty(s.drop_last(), sep);
        lemma_join_split(s.drop_last(), sep);
        if s.last() == sep {
            let q = p.push(Seq::empty());
            assert(q.drop_last() =~= p);
            assert(joined(q, seq![sep]) =~= s);
        } else {
            let q = p.update(p.len() - 1, p.last().push(s.last()));
            if p.len() == 1 {
                assert(joined(p, seq![sep]) == p[0]);
                assert(joined(q, seq![sep]) == q[0]);
                assert(q[0] =~= s.drop_last().push(s.last()));
                assert(joined(q, seq![sep]) =~= s);
            } else {
                assert(q.drop_last() =~= p.drop_last());
                assert(joined(p, seq![sep]) == joined(p.drop_last(), seq![sep]) + seq![sep]
                    + p.last());
                assert(joined(q, seq![sep]) == joined(q.drop_last(), seq![sep]) + seq![sep]
                    + q.last());
                assert(q.last() == p.last().push(s.last()));
                assert(joined(q, seq![sep]) =~= joined(p, seq![sep]).push(s.last()));
                assert(joined(q, seq![sep]) =~= s);
            }
        }
    } else {
        assert(joined(split_on(s, sep), seq![sep]) =~= s);
    }
}

/// No piece of a split holds the separator.
pub proof fn lemma_split_pieces(s: Seq<char>, sep: char)
    ensures
        forall|k: int| 0 <= k < split_on(s, sep).len() ==> !(#[trigger] split_on(s, sep)[k]).contains(
            sep,
        ),
    decreases s.len(),
{
    if s.len() > 0 {
        let p = split_on(s.drop_last(), sep);
        lemma_split_on_nonempty(s.drop_last(), sep);
        lemma_split_pieces(s.drop_last(), sep);
        if s.last() != sep {
            let last = p.last().push(s.last());
            assert(!last.contains(sep)) by {
                if last.contains(sep) {
                    let x = choose|x: int| 0 <= x < last.len() && last[x] == sep;
                    if x < p.last().len() {
                        assert(p.last()[x] == sep);
                        assert(p[p.len() - 1].contains(sep));
                    }
                }
            }
        } else {
            assert(!Seq::<char>::empty().contains(sep));
        }
    } else {
        assert(split_on(s, sep)[0] =~= Seq::<char>::empty());
    }
}

/// The pieces joined with `sep` between each two neighbours.
pub open spec fn joined(parts: Seq<Seq<char>>, sep: Seq<char>) -> Seq<char>
    decreases parts.len(),
{
    if parts.len() == 0 {
        Seq::empty()
    } else if parts.len() == 1 {
        parts[0]
    } else {
        joined(parts.drop_last(), sep) + sep + parts.last()
    }
}

/// The strings of `parts` joined with `sep` between each two neighbours.
pub fn join(parts: &Vec<String>, sep: &str) -> (r: String)
    ensures
        r@ == joined(views(parts@), sep@),
{
    let mut r = String::new();
    let n = parts.len();
    let mut i: usize = 0;
    while i < n
        invariant
            i <= n,
            n == parts@.len(),
            r@ == joined(views(parts@).take(i as int), sep@),
        decreases n - i,
    {
        assert(views(parts@).take(i + 1).drop_last() =~= views(parts@).take(i as int));
        assert(views(parts@).take(i + 1).last() == parts@[i as int]@);
        if i != 0 {
            r.append(sep);
        } else {
            assert(r@ =~= Seq::<char>::empty());
        }
        r.append(parts[i].as_str());
        proof {
            if i == 0 {
                assert(r@ =~= views(parts@).take(1)[0]);
            }
        }
        i += 1;
    }
    assert(views(parts@).take(n as int) =~= views(parts@));
    r
}

/// `n` spaces.
pub open spec fn spaces(n: nat) -> Seq<char> {
    Seq::new(n, |i: int| ' ')
}

/// `s` padded on the right with spaces to `width` characters, as the format
/// `{:<width}` does; a longer `s` is left as it is.
pub open spec fn padded(s: Seq<char>, width: nat) -> Seq<char> {
    if s.len() < width {
        s + spaces((width - s.len()) as nat)
    } else {
        s
    }
}

/// The number of characters a column of `width` takes for `text`: the
/// width, or the text's length where it is longer.
pub open spec fn column_width(text: Seq<char>, width: nat) -> int {
    if text.len() < width {
        width as int
    } else {
        text.len() as int
    }
}

/// Whether `row` shows `text` in a column of `width` characters starting at
/// `start`: the text, then spaces up to the width.
pub open spec fn column_at(row: Seq<char>, start: int, text: Seq<char>, width: nat) -> bool {
    &&& 0 <= start
    &&& start + column_width(text, width) <= row.len()
    &&& row.subrange(start, start + text.len()) == text
    &&& forall|i: int| start + text.len() <= i < start + column_width(text, width) ==> row[i] == ' '
}

/// A padded text, between any text before and after it, shows the text in
/// its column.
pub proof fn lemma_column(before: Seq<char>, text: Seq<char>, width: nat, after: Seq<char>)
    ensures
        column_at(before + padded(text, width) + after, before.len() as int, text, width),
        (before + padded(text, width) + after).len() == before.len() + column_width(text, width)
            + after.len(),
{
    let row = before + padded(text, width) + after;
    let start = before.len() as int;
    assert(padded(text, width).len() == column_width(text, width));
    assert(row.subrange(start, start + text.len()) =~= text);
    assert forall|i: int| start + text.len() <= i < start + column_width(text, width) implies row[i]
        == ' ' by {
        assert(row[i] == padded(text, width)[i - start]);
    }
}

/// `s` padded on the right with spaces to `width` characters.
pub fn pad_right(s: &str, width: usize) -> (r: String)
    ensures
        r@ == padded(s@, width as nat),
{
    let len = s.unicode_len();
    let mut r = s.to_owned();
    if len >= width {
        return r;
    }
    let missing = width - len;
    let mut k: usize = 0;
    assert(r@ =~= s@ + spaces(0));
    while k < missing
        invariant
            k <= missing,
            r@ == s@ + spaces(k as nat),
        decreases missing - k,
    {
        proof {
            reveal_strlit(" ");
        }
        r.append(" ");
        assert(r@ =~= s@ + spaces((k + 1) as nat));
        k += 1;
    }
    r
}

/// The decimal digit for `d < 10`.
pub open spec fn digit(d: nat) -> char {
    if d == 0 {
        '0'
    } else if d == 1 {
        '1'
    } else if d == 2 {
        '2'
    } else if d == 3 {
        '3'
    } else if d == 4 {
        '4'
    } else if d == 5 {
        '5'
    } else if d == 6 {
        '6'
    } else if d == 7 {
        '7'
    } else if d == 8 {
        '8'
    } else {
        '9'
    }
}

/// The decimal representation of `n`, without leading zeros.
pub open spec fn decimal(n: nat) -> Seq<char>
    decreases n,
{
    if n < 10 {
        seq![digit(n)]
    } else {
        decimal(n / 10).push(digit(n % 10))
    }
}

fn digit_str(d: u32) -> (s: &'static str)
    requires
        d < 10,
    ensures
        s@ == seq![digit(d as nat)],
{
    match d {
        0 => {
            proof {
                reveal_strlit("0");
            }
            "0"
        },
        1 => {
            proof {
                reveal_strlit("1");
            }
            "1"
        },
        2 => {
            proof {
                reveal_strlit("2");
            }
            "2"
        },
        3 => {
            proof {
                reveal_strlit("3");
            }
            "3"
        },
        4 => {
            proof {
                reveal_strlit("4");
            }
            "4"
        },
        5 => {
            proof {
                reveal_strlit("5");
            }
            "5"
        },
        6 => {
            proof {
                reveal_strlit("6");
            }
            "6"
        },
        7 => {
            proof {
                reveal_strlit("7");
            }
            "7"
        },
        8 => {
            proof {
                reveal_strlit("8");
            }
            "8"
        },
        _ => {
            proof {
                reveal_strlit("9");
            }
            "9"
        },
    }
}

/// The decimal representation of `n`, as `n.to_string()` writes it.
pub fn decimal_string(n: u32) -> (r: String)
    ensures
        r@ == decimal(n as nat),
    decreases n,
{
    if n < 10 {
        owned(digit_str(n))
    } else {
        let mut r = decimal_string(n / 10);
        r.append(digit_str(n % 10));
        r
    }
}


/// `s` with every `c` replaced by `with`, as `str::replace` does for a
/// one-character pattern.
pub open spec fn replaced(s: Seq<char>, c: char, with: Seq<char>) -> Seq<char>
    decreases s.len(),
{
    if s.len() == 0 {
        Seq::empty()
    } else {
        replaced(s.drop_last(), c, with) + if s.last() == c {
            with
        } else {
            seq![s.last()]
        }
    }
}

/// Replacing in a concatenation replaces in each part; a part without `c`
/// is kept as it is.
pub proof fn lemma_replaced_keeps(prefix: Seq<char>, rest: Seq<char>, c: char, with: Seq<char>)
    requires
        !rest.contains(c),
    ensures
        replaced(prefix + rest, c, with) == replaced(prefix, c, with) + rest,
    decreases rest.len(),
{
    if rest.len() == 0 {
        assert(prefix + rest =~= prefix);
    } else {
        let shorter = rest.drop_last();
        assert(!shorter.contains(c)) by {
            if shorter.contains(c) {
                let k = choose|k: int| 0 <= k < shorter.len() && shorter[k] == c;
                assert(rest[k] == c);
            }
        }
        lemma_replaced_keeps(prefix, shorter, c, with);
        assert((prefix + rest).drop_last() =~= prefix + shorter);
        assert(rest.last() != c) by {
            assert(rest[rest.len() - 1] == rest.last());
        }
        assert(replaced(prefix, c, with) + shorter + seq![rest.last()] =~= replaced(prefix, c, with)
            + rest);
    }
}

/// `s` with every `c` replaced by `with`.
pub fn replace_char(s: &str, c: char, with: &str) -> (r: String)
    ensures
        r@ == replaced(s@, c, with@),
{
    let cs = chars_of(s);
    let n = cs.len();
    let mut r = String::new();
    let mut i: usize = 0;
    assert(s@.take(0) =~= Seq::<char>::empty());
    while i < n
        invariant
            i <= n,
            n == s@.len(),
            cs@ == s@,
            r@ == replaced(s@.take(i as int), c, with@),
        decreases n - i,
    {
        assert(s@.take(i + 1).drop_last() =~= s@.take(i as int));
        assert(s@.take(i + 1).last() == s@[i as int]);
        if cs[i] == c {
            r.append(with);
        } else {
            let one = s.substring_char(i, i + 1);
            assert(one@ =~= seq![s@[i as int]]);
            r.append(one);
        }
        i += 1;
    }
    assert(s@.take(n as int) =~= s@);
    r
}

} // verus!
