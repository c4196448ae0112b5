//! Character-sequence model shared by the parser and the executor: what
//! counts as whitespace, trimming, and splitting on a delimiter character.

use vstd::prelude::*;

verus! {

/// The characters that trimming removes: the Unicode `White_Space` set,
/// matching what `str::trim` strips.
pub open spec fn is_shell_space(c: char) -> bool {
    c == ' ' || c == '\t' || c == '\n' || c == '\r' || c == '\u{b}' || c == '\u{c}'
        || c == '\u{85}' || c == '\u{a0}' || c == '\u{1680}' || c == '\u{2000}'
        || c == '\u{2001}' || c == '\u{2002}' || c == '\u{2003}' || c == '\u{2004}'
        || c == '\u{2005}' || c == '\u{2006}' || c == '\u{2007}' || c == '\u{2008}'
        || c == '\u{2009}' || c == '\u{200a}' || c == '\u{2028}' || c == '\u{2029}'
        || c == '\u{202f}' || c == '\u{205f}' || c == '\u{3000}'
}

pub fn is_space_char(c: char) -> (b: bool)
    ensures
        b == is_shell_space(c),
{
    match c {
        ' ' | '\t' | '\n' | '\r' | '\u{b}' | '\u{c}' | '\u{85}' | '\u{a0}' | '\u{1680}'
        | '\u{2000}' | '\u{2001}' | '\u{2002}' | '\u{2003}' | '\u{2004}' | '\u{2005}'
        | '\u{2006}' | '\u{2007}' | '\u{2008}' | '\u{2009}' | '\u{200a}' | '\u{2028}'
        | '\u{2029}' | '\u{202f}' | '\u{205f}' | '\u{3000}' => true,
        _ => false,
    }
}

/// Every character of `s` is whitespace.
pub open spec fn blank(s: Seq<char>) -> bool {
    forall|i: int| 0 <= i < s.len() ==> is_shell_space(s[i])
}

pub open spec fn drop_leading(s: Seq<char>) -> Seq<char>
    decreases s.len(),
{
    if s.len() == 0 {
        s
    } else if is_shell_space(s[0]) {
        drop_leading(s.skip(1))
    } else {
        s
    }
}

pub open spec fn drop_trailing(s: Seq<char>) -> Seq<char>
    decreases s.len(),
{
    if s.len() == 0 {
        s
    } else if is_shell_space(s.last()) {
        drop_trailing(s.drop_last())
    } else {
        s
    }
}

/// `s` with leading and trailing whitespace removed, as `str::trim` leaves it.
pub open spec fn trimmed(s: Seq<char>) -> Seq<char> {
    drop_trailing(drop_leading(s))
}

proof fn lemma_drop_leading_skip(s: Seq<char>, i: int)
    requires
        0 <= i <= s.len(),
        forall|k: int| 0 <= k < i ==> is_shell_space(s[k]),
        i < s.len() ==> !is_shell_space(s[i]),
    ensures
        drop_leading(s) == s.skip(i),
    decreases i,
{
    if i == 0 {
        assert(s.skip(0) =~= s);
    } else {
        lemma_drop_leading_skip(s.skip(1), i - 1);
        assert(s.skip(1).skip(i - 1) =~= s.skip(i));
    }
}

proof fn lemma_drop_trailing_take(s: Seq<char>, j: int)
    requires
        0 <= j <= s.len(),
        forall|k: int| j <= k < s.len() ==> is_shell_space(s[k]),
        j > 0 ==> !is_shell_space(s[j - 1]),
    ensures
        drop_trailing(s) == s.take(j),
    decreases s.len() - j,
{
    if j == s.len() {
        assert(s.take(j) =~= s);
    } else {
        assert(s.drop_last() =~= s.take(s.len() - 1));
        lemma_drop_trailing_take(s.drop_last(), j);
        assert(s.drop_last().take(j) =~= s.take(j));
    }
}

/// Relates the trim of a string to the subrange between its first and last
/// non-whitespace characters.
pub proof fn lemma_trimmed_is_subrange(s: Seq<char>, i: int, j: int)
    requires
        0 <= i <= j <= s.len(),
        forall|k: int| 0 <= k < i ==> is_shell_space(s[k]),
        forall|k: int| j <= k < s.len() ==> is_shell_space(s[k]),
        i < s.len() ==> !is_shell_space(s[i]),
        j > i ==> !is_shell_space(s[j - 1]),
    ensures
        trimmed(s) == s.subrange(i, j),
    decreases s.len(),
{
    if i == s.len() {
        // the whole string is whitespace and the subrange is empty
        lemma_drop_leading_skip(s, i);
        assert(s.skip(i) =~= s.subrange(i, j));
    } else {
        lemma_drop_leading_skip(s, i);
        let t = s.skip(i);
        assert(t.len() == s.len() - i);
        assert(forall|k: int| 0 <= k < t.len() ==> t[k] == s[k + i]);
        lemma_drop_trailing_take(t, j - i);
        assert(t.take(j - i) =~= s.subrange(i, j));
    }
}

proof fn lemma_drop_leading_head(s: Seq<char>)
    ensures
        drop_leading(s).len() > 0 ==> !is_shell_space(drop_leading(s)[0]),
    decreases s.len(),
{
    if s.len() > 0 && is_shell_space(s[0]) {
        lemma_drop_leading_head(s.skip(1));
    }
}

proof fn lemma_drop_trailing_keeps_head(s: Seq<char>)
    requires
        s.len() > 0,
        !is_shell_space(s[0]),
    ensures
        drop_trailing(s).len() > 0,
        drop_trailing(s)[0] == s[0],
    decreases s.len(),
{
    if is_shell_space(s.last()) {
        lemma_drop_trailing_keeps_head(s.drop_last());
    }
}

/// A string whose first character is not whitespace keeps it through a trim.
pub proof fn lemma_first_nonspace_trims_nonempty(s: Seq<char>)
    requires
        s.len() > 0,
        !is_shell_space(s[0]),
    ensures
        trimmed(s).len() > 0,
        trimmed(s)[0] == s[0],
{
    lemma_drop_trailing_keeps_head(s);
}

/// A trimmed, non-empty string starts with a non-whitespace character.
pub proof fn lemma_trimmed_head(s: Seq<char>)
    ensures
        trimmed(s).len() > 0 ==> !is_shell_space(trimmed(s)[0]),
{
    lemma_drop_leading_head(s);
    let dl = drop_leading(s);
    if dl.len() > 0 {
        lemma_drop_trailing_keeps_head(dl);
    }
}

proof fn lemma_drop_trailing_last(s: Seq<char>)
    ensures
        drop_trailing(s).len() > 0 ==> !is_shell_space(drop_trailing(s).last()),
    decreases s.len(),
{
    if s.len() > 0 && is_shell_space(s.last()) {
        lemma_drop_trailing_last(s.drop_last());
    }
}

/// Trimming is idempotent: a trimmed string trims to itself.
pub proof fn lemma_trimmed_idempotent(s: Seq<char>)
    ensures
        trimmed(trimmed(s)) == trimmed(s),
{
    let t = trimmed(s);
    if t.len() > 0 {
        lemma_trimmed_head(s);
        lemma_drop_trailing_last(drop_leading(s));
        assert(drop_leading(t) == t);
        assert(drop_trailing(t) == t);
    }
}

/// A blank string trims to the empty string.
pub proof fn lemma_blank_trims_empty(s: Seq<char>)
    requires
        blank(s),
    ensures
        trimmed(s).len() == 0,
{
    lemma_drop_leading_skip(s, s.len() as int);
    assert(s.skip(s.len() as int) =~= Seq::<char>::empty());
}

/// `s` holds the character `d` somewhere.
pub open spec fn contains_char(s: Seq<char>, d: char) -> bool {
    exists|i: int| 0 <= i < s.len() && s[i] == d
}

/// The segments of `s` split on `d`, with `cur` the piece collected so far.
/// Splitting always yields one more segment than there are delimiters.
pub open spec fn split_from(s: Seq<char>, d: char, cur: Seq<char>) -> Seq<Seq<char>>
    decreases s.len(),
{
    if s.len() == 0 {
        seq![cur]
    } else if s[0] == d {
        seq![cur] + split_from(s.skip(1), d, Seq::empty())
    } else {
        split_from(s.skip(1), d, cur.push(s[0]))
    }
}

/// The segments of `s` split on the delimiter `d`, as `str::split` yields
/// them: empty segments are kept, and a string without the delimiter is one
/// segment.
pub open spec fn split_on(s: Seq<char>, d: char) -> Seq<Seq<char>> {
    split_from(s, d, Seq::empty())
}

/// The index of the first occurrence of `d` in `s` (equal to `s.len()` when
/// `d` does not occur).
pub open spec fn first_at(s: Seq<char>, d: char) -> int
    decreases s.len(),
{
    if s.len() == 0 {
        0
    } else if s[0] == d {
        0
    } else {
        1 + first_at(s.skip(1), d)
    }
}

pub proof fn lemma_first_at(s: Seq<char>, d: char)
    ensures
        0 <= first_at(s, d) <= s.len(),
        first_at(s, d) < s.len() ==> s[first_at(s, d)] == d,
        forall|k: int| 0 <= k < first_at(s, d) ==> s[k] != d,
        contains_char(s, d) <==> first_at(s, d) < s.len(),
    decreases s.len(),
{
    if s.len() == 0 {
    } else if s[0] == d {
    } else {
        lemma_first_at(s.skip(1), d);
        assert(forall|k: int| 0 <= k < s.skip(1).len() ==> s.skip(1)[k] == s[k + 1]);
        assert forall|k: int| 0 <= k < first_at(s, d) implies s[k] != d by {
            if k > 0 {
                assert(s.skip(1)[k - 1] != d);
            }
        }
        if contains_char(s, d) {
            let w = choose|i: int| 0 <= i < s.len() && s[i] == d;
            assert(s.skip(1)[w - 1] == d);
        }
        if first_at(s.skip(1), d) < s.skip(1).len() {
            assert(s[first_at(s, d)] == s.skip(1)[first_at(s.skip(1), d)]);
        }
    }
}

/// Splitting a delimiter-free string yields the one segment `cur + s`.
pub proof fn lemma_split_no_delim(s: Seq<char>, d: char, cur: Seq<char>)
    requires
        !contains_char(s, d),
    ensures
        split_from(s, d, cur) == seq![cur + s],
    decreases s.len(),
{
    if s.len() == 0 {
        assert(cur + s =~= cur);
    } else {
        assert(s[0] != d);
        assert(forall|k: int| 0 <= k < s.skip(1).len() ==> s.skip(1)[k] == s[k + 1]);
        lemma_split_no_delim(s.skip(1), d, cur.push(s[0]));
        assert(cur.push(s[0]) + s.skip(1) =~= cur + s);
    }
}

/// Splitting at the first delimiter: the head segment is everything before
/// it, and the rest is the split of everything after it.
pub proof fn lemma_split_at_first_delim(s: Seq<char>, d: char, cur: Seq<char>, j: int)
    requires
        0 <= j < s.len(),
        s[j] == d,
        forall|k: int| 0 <= k < j ==> s[k] != d,
    ensures
        split_from(s, d, cur) == seq![cur + s.take(j)] + split_on(s.skip(j + 1), d),
    decreases j,
{
    if j == 0 {
        assert(cur + s.take(0) =~= cur);
        assert(seq![cur] + split_on(s.skip(1), d) =~= seq![cur + s.take(0)] + split_on(
            s.skip(1),
            d,
        ));
    } else {
        assert(forall|k: int| 0 <= k < s.skip(1).len() ==> s.skip(1)[k] == s[k + 1]);
        lemma_split_at_first_delim(s.skip(1), d, cur.push(s[0]), j - 1);
        assert(cur.push(s[0]) + s.skip(1).take(j - 1) =~= cur + s.take(j));
        assert(s.skip(1).skip(j) =~= s.skip(j + 1));
    }
}

/// A split yields at least one segment.
pub proof fn lemma_split_len(s: Seq<char>, d: char, cur: Seq<char>)
    ensures
        split_from(s, d, cur).len() >= 1,
    decreases s.len(),
{
    if s.len() == 0 {
    } else if s[0] == d {
    } else {
        lemma_split_len(s.skip(1), d, cur.push(s[0]));
    }
}

/// A string splits into two or more segments exactly when it holds the
/// delimiter.
pub proof fn lemma_contains_iff_split_len(s: Seq<char>, d: char)
    ensures
        contains_char(s, d) <==> split_on(s, d).len() >= 2,
{
    lemma_first_at(s, d);
    if contains_char(s, d) {
        lemma_split_at_first_delim(s, d, Seq::empty(), first_at(s, d));
        lemma_split_len(s.skip(first_at(s, d) + 1), d, Seq::empty());
    } else {
        lemma_split_no_delim(s, d, Seq::empty());
    }
}

/// The views of a sequence of owned strings.
pub open spec fn views_of(v: Seq<String>) -> Seq<Seq<char>> {
    v.map_values(|t: String| t@)
}

proof fn lemma_views_push(v: Seq<String>, t: String)
    ensures
        views_of(v.push(t)) == views_of(v).push(t@),
{
    assert(views_of(v.push(t)) =~= views_of(v).push(t@));
}

/// Splitting `s` on the delimiter `d`, keeping empty segments, as
/// `str::split` does.
pub fn split_str(s: &str, d: char) -> (r: Vec<String>)
    ensures
        views_of(r@) == split_on(s@, d),
{
    let n: usize = s.unicode_len();
    let mut parts: Vec<String> = Vec::new();
    let mut cur: String = String::new();
    let mut i: usize = 0;
    proof {
        assert(s@.skip(0) =~= s@);
        assert(views_of(parts@) =~= Seq::<Seq<char>>::empty());
        assert(views_of(parts@) + split_from(s@, d, cur@) =~= split_from(s@, d, cur@));
    }
    while i < n
        invariant
            0 <= i <= n,
            n == s@.len(),
            split_on(s@, d) == views_of(parts@) + split_from(s@.skip(i as int), d, cur@),
        decreases n - i,
    {
        let c = s.get_char(i);
        proof {
            assert(s@.skip(i as int)[0] == s@[i as int]);
            assert(s@.skip(i as int).skip(1) =~= s@.skip(i as int + 1));
        }
        let ghost old_parts = parts@;
        let ghost old_cur = cur@;
        if c == d {
            proof {
                lemma_views_push(parts@, cur);
            }
            parts.push(cur);
            cur = String::new();
            proof {
                assert(views_of(old_parts).push(old_cur) + split_from(
                    s@.skip(i as int + 1),
                    d,
                    Seq::empty(),
                ) =~= views_of(old_parts) + (seq![old_cur] + split_from(
                    s@.skip(i as int + 1),
                    d,
                    Seq::empty(),
                )));
            }
        } else {
            let piece = s.substring_char(i, i + 1);
            proof {
                assert(piece@ =~= seq![s@[i as int]]);
            }
            cur.append(piece);
            proof {
                assert(cur@ =~= old_cur.push(s@[i as int]));
            }
        }
        i = i + 1;
    }
    proof {
        assert(s@.skip(n as int) =~= Seq::<char>::empty());
        lemma_views_push(parts@, cur);
        assert(views_of(parts@).push(cur@) =~= views_of(parts@) + seq![cur@]);
    }
    parts.push(cur);
    parts
}

/// Character-for-character string equality, exposed at the view level.
pub fn str_eq(a: &str, b: &str) -> (r: bool)
    ensures
        r == (a@ == b@),
{
    let n: usize = a.unicode_len();
    if n != b.unicode_len() {
        return false;
    }
    let mut i: usize = 0;
    while i < n
        invariant
            0 <= i <= n,
            n == a@.len(),
            n == b@.len(),
            forall|k: int| 0 <= k < i ==> a@[k] == b@[k],
        decreases n - i,
    {
        if a.get_char(i) != b.get_char(i) {
            return false;
        }
        i = i + 1;
    }
    proof {
        assert(a@ =~= b@);
    }
    true
}

/// Whether `s` holds the character `d`.
pub fn str_contains_char(s: &str, d: char) -> (r: bool)
    ensures
        r == contains_char(s@, d),
{
    let n: usize = s.unicode_len();
    let mut i: usize = 0;
    while i < n
        invariant
            0 <= i <= n,
            n == s@.len(),
            forall|k: int| 0 <= k < i ==> s@[k] != d,
        decreases n - i,
    {
        if s.get_char(i) == d {
            return true;
        }
        i = i + 1;
    }
    false
}

/// Trimming `s`, as `str::trim` does.
pub fn trim_str<'a>(s: &'a str) -> (r: &'a str)
    ensures
        r@ == trimmed(s@),
{
    let n: usize = s.unicode_len();
    let mut i: usize = 0;
    while i < n && is_space_char(s.get_char(i))
        invariant
            0 <= i <= n,
            n == s@.len(),
            forall|k: int| 0 <= k < i ==> is_shell_space(s@[k]),
        decreases n - i,
    {
        i = i + 1;
    }
    let mut j: usize = n;
    while j > i && is_space_char(s.get_char(j - 1))
        invariant
            i <= j <= n,
            n == s@.len(),
            forall|k: int| j <= k < n ==> is_shell_space(s@[k]),
        decreases j,
    {
        j = j - 1;
    }
    proof {
        lemma_trimmed_is_subrange(s@, i as int, j as int);
    }
    s.substring_char(i, j)
}

} // verus!
