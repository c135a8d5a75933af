//! Text as sequences of characters: letter case, white space and lines.

use vstd::prelude::*;

verus! {

broadcast use vstd::string::group_string_axioms;

/// `String::push` puts one character at the end of the string.
pub assume_specification[ String::push ](s: &mut String, ch: char)
    ensures
        final(s)@ == old(s)@.push(ch),
;

/// The contents of each string.
pub open spec fn views(strings: Seq<String>) -> Seq<Seq<char>> {
    strings.map_values(|s: String| s@)
}

/// What an optional text holds.
pub open spec fn opt_view(text: Option<&str>) -> Option<Seq<char>> {
    match text {
        Some(t) => Some(t@),
        None => None,
    }
}

/// What an optional string holds.
pub open spec fn opt_text(text: Option<String>) -> Option<Seq<char>> {
    match text {
        Some(t) => Some(t@),
        None => None,
    }
}

// ---------------------------------------------------------------------------
// Conversions
// ---------------------------------------------------------------------------

/// The characters of `s`.
pub fn chars_of(s: &str) -> (chars: Vec<char>)
    ensures
        chars@ == s@,
{
    let mut chars: Vec<char> = Vec::new();
    for c in iter: s.chars()
        invariant
            chars@ == iter.seq().take(iter.index() as int),
            iter.seq() == s@,
    {
        chars.push(c);
    }
    assert(s@.take(s@.len() as int) =~= s@);
    chars
}

/// The string that holds `chars[from..to]`.
pub fn text_of(chars: &Vec<char>, from: usize, to: usize) -> (text: String)
    requires
        from <= to <= chars.len(),
    ensures
        text@ == chars@.subrange(from as int, to as int),
{
    let mut text: String = String::new();
    let mut i: usize = from;
    while i < to
        invariant
            from <= i <= to <= chars.len(),
            text@ == chars@.subrange(from as int, i as int),
        decreases to - i,
    {
        text.push(chars[i]);
        assert(chars@.subrange(from as int, i + 1) =~= chars@.subrange(from as int, i as int).push(
            chars@[i as int],
        ));
        i = i + 1;
    }
    text
}

/// Decides whether two texts are the same.
pub fn same_text(a: &str, b: &str) -> (same: bool)
    ensures
        same == (a@ == b@),
{
    let x: Vec<char> = chars_of(a);
    let y: Vec<char> = chars_of(b);
    if x.len() != y.len() {
        return false;
    }
    let mut i: usize = 0;
    while i < x.len()
        invariant
            i <= x.len(),
            x.len() == y.len(),
            x@ == a@,
            y@ == b@,
            forall|k: int| 0 <= k < i ==> x@[k] == y@[k],
        decreases x.len() - i,
    {
        if x[i] != y[i] {
            return false;
        }
        i = i + 1;
    }
    assert(a@ =~= b@);
    true
}

// ---------------------------------------------------------------------------
// Letter case
// ---------------------------------------------------------------------------

/// `c` with the letters `A` to `Z` made small.
pub open spec fn lower(c: char) -> char {
    if 'A' <= c <= 'Z' {
        (c as u8 + 32) as char
    } else {
        c
    }
}

/// `s` with the letters `A` to `Z` made small.
pub open spec fn lowered(s: Seq<char>) -> Seq<char> {
    s.map_values(|c: char| lower(c))
}

/// Makes one letter of `A` to `Z` small.
pub fn lower_char(c: char) -> (l: char)
    ensures
        l == lower(c),
{
    if 'A' <= c && c <= 'Z' {
        ((c as u8) + 32) as char
    } else {
        c
    }
}

/// Decides whether two texts agree but for the case of `A` to `Z`.
pub fn same_ignoring_case(a: &str, b: &str) -> (same: bool)
    ensures
        same == (lowered(a@) == lowered(b@)),
{
    let x: Vec<char> = chars_of(a);
    let y: Vec<char> = chars_of(b);
    if x.len() != y.len() {
        assert(lowered(a@).len() != lowered(b@).len());
        return false;
    }
    let mut i: usize = 0;
    while i < x.len()
        invariant
            i <= x.len(),
            x.len() == y.len(),
            x@ == a@,
            y@ == b@,
            forall|k: int| 0 <= k < i ==> lower(x@[k]) == lower(y@[k]),
        decreases x.len() - i,
    {
        if lower_char(x[i]) != lower_char(y[i]) {
            assert(lowered(a@)[i as int] != lowered(b@)[i as int]);
            return false;
        }
        i = i + 1;
    }
    assert(lowered(a@) =~= lowered(b@));
    true
}

/// `part` stands in `s` from position `at` on.
pub open spec fn stands_at(s: Seq<char>, part: Seq<char>, at: int) -> bool {
    0 <= at && at + part.len() <= s.len() && s.subrange(at, at + part.len()) == part
}

/// `part` stands somewhere in `s`.
pub open spec fn has_part(s: Seq<char>, part: Seq<char>) -> bool {
    exists|at: int| stands_at(s, part, at)
}

/// Decides whether `part` stands in `s` from `at` on.
fn stands_here(s: &Vec<char>, part: &Vec<char>, at: usize) -> (here: bool)
    requires
        at + part.len() <= s.len(),
    ensures
        here == stands_at(s@, part@, at as int),
{
    let mut k: usize = 0;
    while k < part.len()
        invariant
            k <= part.len(),
            at + part.len() <= s.len(),
            forall|j: int| 0 <= j < k ==> s@[at + j] == part@[j],
        decreases part.len() - k,
    {
        if s[at + k] != part[k] {
            assert(s@.subrange(at as int, at + part@.len())[k as int] != part@[k as int]);
            return false;
        }
        k = k + 1;
    }
    assert(s@.subrange(at as int, at + part@.len()) =~= part@);
    true
}

/// Decides whether `part` stands somewhere in `s`.
pub fn contains_part(s: &Vec<char>, part: &Vec<char>) -> (found: bool)
    ensures
        found == has_part(s@, part@),
{
    if part.len() > s.len() {
        return false;
    }
    let mut at: usize = 0;
    while at <= s.len() - part.len()
        invariant
            at <= s.len() - part.len() + 1,
            part.len() <= s.len(),
            forall|k: int| 0 <= k < at ==> !stands_at(s@, part@, k),
        decreases s.len() - part.len() + 1 - at,
    {
        if stands_here(s, part, at) {
            return true;
        }
        if at == s.len() - part.len() {
            return false;
        }
        at = at + 1;
    }
    false
}

/// `s` begins with `part`.
pub open spec fn begins(s: Seq<char>, part: Seq<char>) -> bool {
    stands_at(s, part, 0)
}

/// Decides whether `s` begins with `part`.
pub fn begins_with(s: &Vec<char>, part: &Vec<char>) -> (b: bool)
    ensures
        b == begins(s@, part@),
{
    part.len() <= s.len() && stands_here(s, part, 0)
}

// ---------------------------------------------------------------------------
// White space
// ---------------------------------------------------------------------------

/// The characters with the Unicode property White_Space.
pub open spec fn white(c: char) -> bool {
    ||| '\u{9}' <= c <= '\u{d}'
    ||| c == '\u{20}'
    ||| c == '\u{85}'
    ||| c == '\u{a0}'
    ||| c == '\u{1680}'
    ||| '\u{2000}' <= c <= '\u{200a}'
    ||| c == '\u{2028}'
    ||| c == '\u{2029}'
    ||| c == '\u{202f}'
    ||| c == '\u{205f}'
    ||| c == '\u{3000}'
}

/// Decides whether `c` is white space.
pub fn is_white(c: char) -> (w: bool)
    ensures
        w == white(c),
{
    ('\u{9}' <= c && c <= '\u{d}') || c == '\u{20}' || c == '\u{85}' || c == '\u{a0}' || c
        == '\u{1680}' || ('\u{2000}' <= c && c <= '\u{200a}') || c == '\u{2028}' || c == '\u{2029}'
        || c == '\u{202f}' || c == '\u{205f}' || c == '\u{3000}'
}

/// `s` without the white space that it begins with.
pub open spec fn trimmed_start(s: Seq<char>) -> Seq<char>
    decreases s.len(),
{
    if s.len() > 0 && white(s[0]) {
        trimmed_start(s.drop_first())
    } else {
        s
    }
}

/// `s` without the white space that it ends with.
pub open spec fn trimmed_end(s: Seq<char>) -> Seq<char>
    decreases s.len(),
{
    if s.len() > 0 && white(s.last()) {
        trimmed_end(s.drop_last())
    } else {
        s
    }
}

/// `s` without the white space at either end.
pub open spec fn trimmed(s: Seq<char>) -> Seq<char> {
    trimmed_end(trimmed_start(s))
}

proof fn lemma_trimmed_start(s: Seq<char>, from: int)
    requires
        0 <= from <= s.len(),
        forall|k: int| 0 <= k < from ==> white(#[trigger] s[k]),
        from < s.len() ==> !white(s[from]),
    ensures
        trimmed_start(s) == s.skip(from),
    decreases s.len(),
{
    if from == 0 {
        assert(s.skip(0) =~= s);
    } else {
        assert(white(s[0]));
        lemma_trimmed_start(s.drop_first(), from - 1);
        assert(s.drop_first().skip(from - 1) =~= s.skip(from));
    }
}

proof fn lemma_trimmed_end(s: Seq<char>, to: int)
    requires
        0 <= to <= s.len(),
        forall|k: int| to <= k < s.len() ==> white(#[trigger] s[k]),
        to > 0 ==> !white(s[to - 1]),
    ensures
        trimmed_end(s) == s.take(to),
    decreases s.len(),
{
    if to == s.len() {
        assert(s.take(to) =~= s);
    } else {
        assert(white(s[s.len() - 1]));
        lemma_trimmed_end(s.drop_last(), to);
        assert(s.drop_last().take(to) =~= s.take(to));
    }
}

/// Cuts the white space off both ends.
pub fn trim_chars(s: &Vec<char>) -> (t: Vec<char>)
    ensures
        t@ == trimmed(s@),
{
    let mut from: usize = 0;
    while from < s.len() && is_white(s[from])
        invariant
            from <= s.len(),
            forall|k: int| 0 <= k < from ==> white(#[trigger] s@[k]),
        decreases s.len() - from,
    {
        from = from + 1;
    }
    let mut to: usize = s.len();
    while to > from && is_white(s[to - 1])
        invariant
            from <= to <= s.len(),
            forall|k: int| to <= k < s.len() ==> white(#[trigger] s@[k]),
        decreases to,
    {
        to = to - 1;
    }
    proof {
        lemma_trimmed_start(s@, from as int);
        let rest = s@.skip(from as int);
        assert forall|k: int| to - from <= k < rest.len() implies white(#[trigger] rest[k]) by {
            assert(white(s@[from + k]));
        }
        lemma_trimmed_end(rest, to - from);
        assert(rest.take(to - from) =~= s@.subrange(from as int, to as int));
    }
    let mut t: Vec<char> = Vec::new();
    let mut i: usize = from;
    while i < to
        invariant
            from <= i <= to <= s.len(),
            t@ == s@.subrange(from as int, i as int),
        decreases to - i,
    {
        t.push(s[i]);
        assert(s@.subrange(from as int, i + 1) =~= s@.subrange(from as int, i as int).push(
            s@[i as int],
        ));
        i = i + 1;
    }
    t
}

/// The trimmed text of `s`.
pub fn trim_text(s: &str) -> (t: String)
    ensures
        t@ == trimmed(s@),
{
    let chars: Vec<char> = trim_chars(&chars_of(s));
    let t: String = text_of(&chars, 0, chars.len());
    assert(chars@.subrange(0, chars@.len() as int) =~= chars@);
    t
}

/// Decides whether `s` holds nothing but white space.
pub fn is_blank(s: &str) -> (blank: bool)
    ensures
        blank == (trimmed(s@).len() == 0),
{
    trim_chars(&chars_of(s)).len() == 0
}

/// What trimming leaves, trimming leaves alone.
pub proof fn trimming_is_idempotent(s: Seq<char>)
    ensures
        trimmed(trimmed(s)) == trimmed(s),
{
    lemma_trim_shape(s);
    tight_text_is_trimmed(trimmed(s));
}

/// A text with no white space at either end is its own trimmed text.
pub proof fn tight_text_is_trimmed(s: Seq<char>)
    requires
        s.len() > 0 ==> !white(s[0]) && !white(s.last()),
    ensures
        trimmed(s) == s,
{
    lemma_trimmed_start(s, 0);
    assert(s.skip(0) =~= s);
    lemma_trimmed_end(s, s.len() as int);
    assert(s.take(s.len() as int) =~= s);
}

/// White space before a text makes no difference to trimming.
pub proof fn leading_white_is_trimmed(c: char, s: Seq<char>)
    requires
        white(c),
    ensures
        trimmed(seq![c] + s) == trimmed(s),
{
    assert((seq![c] + s).drop_first() =~= s);
}

/// A trimmed text neither begins nor ends with white space.
proof fn lemma_trim_shape(s: Seq<char>)
    ensures
        trimmed(s).len() > 0 ==> !white(trimmed(s)[0]) && !white(trimmed(s).last()),
{
    lemma_trimmed_start_head(s);
    lemma_trimmed_end_tail(trimmed_start(s));
}

proof fn lemma_trimmed_start_head(s: Seq<char>)
    ensures
        trimmed_start(s).len() > 0 ==> !white(trimmed_start(s)[0]),
    decreases s.len(),
{
    if s.len() > 0 && white(s[0]) {
        lemma_trimmed_start_head(s.drop_first());
    }
}

proof fn lemma_trimmed_end_tail(s: Seq<char>)
    ensures
        trimmed_end(s).len() > 0 ==> !white(trimmed_end(s).last()),
        trimmed_end(s).len() > 0 ==> s.len() > 0 && trimmed_end(s)[0] == s[0],
        trimmed_end(s).len() <= s.len(),
    decreases s.len(),
{
    if s.len() > 0 && white(s.last()) {
        lemma_trimmed_end_tail(s.drop_last());
    }
}

/// White space behind a text makes no difference to trimming.
pub proof fn trailing_white_is_trimmed(s: Seq<char>, c: char)
    requires
        white(c),
    ensures
        trimmed(s.push(c)) == trimmed(s),
    decreases s.len(),
{
    if s.len() == 0 {
        assert(s.push(c).drop_first() =~= s);
        assert(trimmed_start(s.push(c)) == trimmed_start(s));
    } else if white(s[0]) {
        assert(s.push(c)[0] == s[0]);
        assert(s.push(c).drop_first() =~= s.drop_first().push(c));
        trailing_white_is_trimmed(s.drop_first(), c);
    } else {
        assert(s.push(c)[0] == s[0]);
        assert(s.push(c).drop_last() =~= s);
    }
}

// ---------------------------------------------------------------------------
// Lines
// ---------------------------------------------------------------------------

/// Where the first line of `s` ends: at its first line feed, or at the end.
pub open spec fn newline_at(s: Seq<char>) -> nat
    decreases s.len(),
{
    if s.len() == 0 || s[0] == '\n' {
        0
    } else {
        newline_at(s.drop_first()) + 1
    }
}

/// `line` without the carriage return that it ends with, if it ends with one.
pub open spec fn without_return(line: Seq<char>) -> Seq<char> {
    if line.len() > 0 && line.last() == '\r' {
        line.drop_last()
    } else {
        line
    }
}

/// The lines of `s`. A line ends with a line feed, or with a carriage return
/// and a line feed; the last line needs no such end.
pub open spec fn lines(s: Seq<char>) -> Seq<Seq<char>>
    decreases s.len(),
{
    if s.len() == 0 {
        Seq::empty()
    } else {
        let end = newline_at(s);
        if end < s.len() {
            seq![without_return(s.take(end as int))] + lines(s.skip(end as int + 1))
        } else {
            seq![s]
        }
    }
}

/// Every line with a line feed behind it.
pub open spec fn unlines(ls: Seq<Seq<char>>) -> Seq<char>
    decreases ls.len(),
{
    if ls.len() == 0 {
        Seq::empty()
    } else {
        unlines(ls.drop_last()) + ls.last().push('\n')
    }
}

proof fn lemma_newline_at(s: Seq<char>, end: int)
    requires
        0 <= end <= s.len(),
        forall|k: int| 0 <= k < end ==> #[trigger] s[k] != '\n',
        end < s.len() ==> s[end] == '\n',
    ensures
        newline_at(s) == end,
    decreases s.len(),
{
    if end > 0 {
        assert(s[0] != '\n');
        lemma_newline_at(s.drop_first(), end - 1);
    }
}

/// Splits `s` into its lines.
pub fn split_lines(s: &str) -> (ls: Vec<String>)
    ensures
        views(ls@) == lines(s@),
{
    let chars: Vec<char> = chars_of(s);
    let mut ls: Vec<String> = Vec::new();
    let mut start: usize = 0;
    let mut i: usize = 0;
    assert(chars@.skip(0) =~= chars@);
    while i < chars.len()
        invariant
            start <= i <= chars.len(),
            forall|k: int| start <= k < i ==> #[trigger] chars@[k] != '\n',
            lines(chars@) == views(ls@) + lines(chars@.skip(start as int)),
        decreases chars.len() - i,
    {
        if chars[i] == '\n' {
            let end: usize = if i > start && chars[i - 1] == '\r' {
                i - 1
            } else {
                i
            };
            let line: String = text_of(&chars, start, end);
            proof {
                let rest = chars@.skip(start as int);
                assert forall|k: int| 0 <= k < i - start implies #[trigger] rest[k] != '\n' by {
                    assert(chars@[start + k] != '\n');
                }
                lemma_newline_at(rest, i - start);
                assert(rest.take(i - start) =~= chars@.subrange(start as int, i as int));
                assert(line@ =~= without_return(rest.take(i - start)));
                assert(rest.skip(i - start + 1) =~= chars@.skip(i + 1));
                assert(views(ls@.push(line)) =~= views(ls@).push(line@));
                assert(views(ls@) + (seq![line@] + lines(chars@.skip(i + 1))) =~= views(
                    ls@.push(line),
                ) + lines(chars@.skip(i + 1)));
            }
            ls.push(line);
            start = i + 1;
        }
        i = i + 1;
    }
    let ghost rest = chars@.skip(start as int);
    if start < chars.len() {
        let line: String = text_of(&chars, start, chars.len());
        proof {
            assert forall|k: int| 0 <= k < rest.len() implies #[trigger] rest[k] != '\n' by {
                assert(chars@[start + k] != '\n');
            }
            lemma_newline_at(rest, rest.len() as int);
            assert(line@ =~= rest);
            assert(views(ls@.push(line)) =~= views(ls@).push(line@));
            assert(views(ls@) + seq![rest] =~= views(ls@.push(line)));
        }
        ls.push(line);
    } else {
        assert(views(ls@) + Seq::<Seq<char>>::empty() =~= views(ls@));
    }
    ls
}

/// Joins lines, each with a line feed behind it.
pub fn join_lines(ls: &Vec<String>) -> (s: String)
    ensures
        s@ == unlines(views(ls@)),
{
    let mut s: String = String::new();
    let mut i: usize = 0;
    assert(views(ls@).take(0) =~= Seq::<Seq<char>>::empty());
    while i < ls.len()
        invariant
            i <= ls.len(),
            s@ == unlines(views(ls@).take(i as int)),
        decreases ls.len() - i,
    {
        s.append(ls[i].as_str());
        s.push('\n');
        proof {
            let next = views(ls@).take(i + 1);
            assert(next.drop_last() =~= views(ls@).take(i as int));
            assert(next.last() == ls@[i as int]@);
            assert(unlines(next) =~= s@);
        }
        i = i + 1;
    }
    assert(views(ls@).take(i as int) =~= views(ls@));
    s
}

/// No line feed in any of the lines.
pub open spec fn feed_free(ls: Seq<Seq<char>>) -> bool {
    forall|i: int, k: int|
        0 <= i < ls.len() && 0 <= k < ls[i].len() ==> #[trigger] ls[i][k] != '\n'
}

/// `unlines` seen from the front.
proof fn lemma_unlines_front(ls: Seq<Seq<char>>)
    requires
        ls.len() > 0,
    ensures
        unlines(ls) == ls[0].push('\n') + unlines(ls.drop_first()),
    decreases ls.len(),
{
    if ls.len() == 1 {
        assert(ls.drop_last() =~= Seq::<Seq<char>>::empty());
        assert(ls.drop_first() =~= Seq::<Seq<char>>::empty());
        assert(unlines(ls) =~= ls[0].push('\n') + unlines(ls.drop_first()));
    } else {
        lemma_unlines_front(ls.drop_last());
        assert(ls.drop_last().drop_first() =~= ls.drop_first().drop_last());
        assert(unlines(ls) =~= ls[0].push('\n') + unlines(ls.drop_first()));
    }
}

/// Splitting what joining wrote gives the lines back, but for a carriage
/// return at the end of a line, which counts as part of the line's end.
pub proof fn split_of_joined(ls: Seq<Seq<char>>)
    requires
        feed_free(ls),
    ensures
        lines(unlines(ls)) == ls.map_values(|l: Seq<char>| without_return(l)),
    decreases ls.len(),
{
    let cut = |l: Seq<char>| without_return(l);
    if ls.len() == 0 {
        assert(ls.map_values(cut) =~= Seq::<Seq<char>>::empty());
    } else {
        let rest = ls.drop_first();
        let whole = unlines(ls);
        lemma_unlines_front(ls);
        assert forall|i: int, k: int|
            0 <= i < rest.len() && 0 <= k < rest[i].len() implies #[trigger] rest[i][k] != '\n' by {
            assert(ls[i + 1][k] != '\n');
        }
        split_of_joined(rest);
        let end = ls[0].len() as int;
        assert forall|k: int| 0 <= k < end implies #[trigger] whole[k] != '\n' by {
            assert(ls[0][k] != '\n');
        }
        lemma_newline_at(whole, end);
        assert(whole.take(end) =~= ls[0]);
        assert(whole.skip(end + 1) =~= unlines(rest));
        assert(lines(whole) =~= ls.map_values(cut));
    }
}

/// The lines of a text hold no line feed.
pub proof fn lines_are_feed_free(s: Seq<char>)
    ensures
        feed_free(lines(s)),
    decreases s.len(),
{
    if s.len() > 0 {
        let end = newline_at(s);
        lemma_newline_at_shape(s);
        if end < s.len() {
            let first = without_return(s.take(end as int));
            let rest = lines(s.skip(end as int + 1));
            lines_are_feed_free(s.skip(end as int + 1));
            let all = lines(s);
            assert forall|i: int, k: int|
                0 <= i < all.len() && 0 <= k < all[i].len() implies #[trigger] all[i][k] != '\n' by {
                if i == 0 {
                    assert(all[i][k] == s[k]);
                } else {
                    assert(all[i] == rest[i - 1]);
                    assert(rest[i - 1][k] != '\n');
                }
            }
        }
    }
}

proof fn lemma_newline_at_shape(s: Seq<char>)
    ensures
        newline_at(s) <= s.len(),
        newline_at(s) < s.len() ==> s[newline_at(s) as int] == '\n',
        forall|k: int| 0 <= k < newline_at(s) ==> #[trigger] s[k] != '\n',
    decreases s.len(),
{
    if s.len() > 0 && s[0] != '\n' {
        let t = s.drop_first();
        lemma_newline_at_shape(t);
        assert forall|k: int| 0 <= k < newline_at(s) implies #[trigger] s[k] != '\n' by {
            if k > 0 {
                assert(t[k - 1] != '\n');
            }
        }
    }
}

// ---------------------------------------------------------------------------
// What these notions come to
// ---------------------------------------------------------------------------

/// A text without a line feed.
pub open spec fn on_one_line(s: Seq<char>) -> bool {
    forall|k: int| 0 <= k < s.len() ==> #[trigger] s[k] != '\n'
}

/// The lines of a text, one after the other: what stands before the first line
/// feed, without one carriage return at its end, is the first line, and the lines
/// of what stands behind the line feed follow.
pub proof fn lines_come_one_by_one(first: Seq<char>, rest: Seq<char>)
    requires
        on_one_line(first),
    ensures
        lines(first + seq!['\n'] + rest) == seq![
            (if first.len() > 0 && first[first.len() - 1] == '\r' {
                first.take(first.len() - 1)
            } else {
                first
            }),
        ] + lines(rest),
{
    let s = first + seq!['\n'] + rest;
    lemma_newline_at(s, first.len() as int);
    assert(s.take(first.len() as int) =~= first);
    assert(s.skip(first.len() as int + 1) =~= rest);
    if first.len() > 0 {
        assert(first.drop_last() =~= first.take(first.len() - 1));
    }
}

/// A text without a line feed is a line as it is, unless it is empty.
pub proof fn the_last_line_is_as_it_is(s: Seq<char>)
    requires
        on_one_line(s),
    ensures
        lines(s) == if s.len() == 0 {
            Seq::<Seq<char>>::empty()
        } else {
            seq![s]
        },
{
    lemma_newline_at(s, s.len() as int);
}

/// Joining puts a line feed behind every line, and nothing else.
pub proof fn joining_puts_line_feeds_behind(ls: Seq<Seq<char>>)
    ensures
        unlines(ls) == ls.map_values(|l: Seq<char>| l + seq!['\n']).flatten(),
    decreases ls.len(),
{
    let ended = ls.map_values(|l: Seq<char>| l + seq!['\n']);
    if ls.len() > 0 {
        let front = ls.drop_last();
        let before = front.map_values(|l: Seq<char>| l + seq!['\n']);
        joining_puts_line_feeds_behind(front);
        assert(ended =~= before.push(ls.last() + seq!['\n']));
        before.lemma_flatten_push(ls.last() + seq!['\n']);
        assert(ls.last().push('\n') =~= ls.last() + seq!['\n']);
    } else {
        assert(ended =~= Seq::<Seq<char>>::empty());
    }
}

/// Trimming takes the white space off both ends, and nothing else.
pub proof fn trimming_takes_white_off_both_ends(s: Seq<char>) -> (ends: (int, int))
    ensures
        0 <= ends.0 <= ends.1 <= s.len(),
        trimmed(s) == s.subrange(ends.0, ends.1),
        forall|k: int| 0 <= k < ends.0 ==> white(#[trigger] s[k]),
        forall|k: int| ends.1 <= k < s.len() ==> white(#[trigger] s[k]),
        ends.0 < ends.1 ==> !white(s[ends.0]) && !white(s[ends.1 - 1]),
{
    let i = lemma_trimmed_start_is(s);
    let t = trimmed_start(s);
    let n = lemma_trimmed_end_is(t);
    assert(t.subrange(0, n) =~= s.subrange(i, i + n));
    assert forall|k: int| i + n <= k < s.len() implies white(#[trigger] s[k]) by {
        assert(t[k - i] == s[k]);
    }
    if n > 0 {
        assert(t[0] == s[i]);
        assert(t[n - 1] == s[i + n - 1]);
        assert(t.len() > 0);
    }
    (i, i + n)
}

proof fn lemma_trimmed_start_is(s: Seq<char>) -> (i: int)
    ensures
        0 <= i <= s.len(),
        trimmed_start(s) == s.subrange(i, s.len() as int),
        forall|k: int| 0 <= k < i ==> white(#[trigger] s[k]),
        i < s.len() ==> !white(s[i]),
    decreases s.len(),
{
    if s.len() > 0 && white(s[0]) {
        let t = s.drop_first();
        let i = lemma_trimmed_start_is(t);
        assert(t.subrange(i, t.len() as int) =~= s.subrange(i + 1, s.len() as int));
        assert forall|k: int| 0 <= k < i + 1 implies white(#[trigger] s[k]) by {
            if k > 0 {
                assert(t[k - 1] == s[k]);
            }
        }
        if i < t.len() {
            assert(t[i] == s[i + 1]);
        }
        i + 1
    } else {
        assert(s.subrange(0, s.len() as int) =~= s);
        0
    }
}

proof fn lemma_trimmed_end_is(s: Seq<char>) -> (n: int)
    ensures
        0 <= n <= s.len(),
        trimmed_end(s) == s.subrange(0, n),
        forall|k: int| n <= k < s.len() ==> white(#[trigger] s[k]),
        n > 0 ==> !white(s[n - 1]),
    decreases s.len(),
{
    if s.len() > 0 && white(s.last()) {
        let t = s.drop_last();
        let n = lemma_trimmed_end_is(t);
        assert(t.subrange(0, n) =~= s.subrange(0, n));
        assert forall|k: int| n <= k < s.len() implies white(#[trigger] s[k]) by {
            if k < t.len() {
                assert(t[k] == s[k]);
            }
        }
        if n > 0 {
            assert(t[n - 1] == s[n - 1]);
        }
        n
    } else {
        assert(s.subrange(0, s.len() as int) =~= s);
        s.len() as int
    }
}

/// The characters of white space, by their numbers: tab to carriage return, the
/// space, the next line, and the spaces and separators further up.
pub proof fn white_space_by_numbers(c: char)
    ensures
        white(c) <==> {
            let n = c as u32;
            ||| 9 <= n <= 13
            ||| n == 32
            ||| n == 133
            ||| n == 160
            ||| n == 5760
            ||| 8192 <= n <= 8202
            ||| n == 8232
            ||| n == 8233
            ||| n == 8239
            ||| n == 8287
            ||| n == 12288
        },
{
}

/// Making letters small takes each of the twenty-six capitals `A` to `Z` to the
/// letter thirty-two places further, and leaves every other character alone.
pub proof fn capitals_have_small_letters(c: char)
    ensures
        65 <= c as u32 <= 90 ==> lower(c) as u32 == c as u32 + 32,
        !(65 <= c as u32 <= 90) ==> lower(c) == c,
{
}

/// A text has a part where it consists of something, the part, and something; it
/// begins with it where it consists of the part and something.
pub proof fn parts_stand_inside(s: Seq<char>, part: Seq<char>)
    ensures
        has_part(s, part) <==> exists|a: Seq<char>, b: Seq<char>| s == #[trigger] (a + part + b),
        begins(s, part) <==> exists|b: Seq<char>| s == #[trigger] (part + b),
{
    if has_part(s, part) {
        let at = choose|at: int| stands_at(s, part, at);
        let a = s.take(at);
        let b = s.skip(at + part.len());
        assert(s =~= a + part + b);
    }
    if exists|a: Seq<char>, b: Seq<char>| s == #[trigger] (a + part + b) {
        let (a, b) = choose|a: Seq<char>, b: Seq<char>| s == #[trigger] (a + part + b);
        assert(s.subrange(a.len() as int, (a.len() + part.len()) as int) =~= part);
        assert(stands_at(s, part, a.len() as int));
    }
    if begins(s, part) {
        assert(s =~= part + s.skip(part.len() as int));
    }
    if exists|b: Seq<char>| s == #[trigger] (part + b) {
        let b = choose|b: Seq<char>| s == #[trigger] (part + b);
        assert(s.subrange(0, part.len() as int) =~= part);
    }
}

} // verus!
