//! The terminal's configuration file: setting the font size in it, taking the
//! setting out again, and reading the size that it asks for.

use vstd::prelude::*;

use crate::font::DEFAULT_FONT_SIZE;
use crate::number::{one_decimal_text, parse_tenths};
use crate::text::{begins_with, chars_of, contains_part, join_lines, split_lines, trim_chars};

verus! {

broadcast use vstd::string::group_string_axioms;

use crate::number::{
    decimal,
    decimal_reads_back,
    digit,
    one_decimal_reads_back,
    u32_tenths_value,
    with_one_decimal,
};
use crate::text::{
    begins,
    has_part,
    lines,
    lines_are_feed_free,
    opt_view,
    split_of_joined,
    trailing_white_is_trimmed,
    trimmed,
    unlines,
    views,
    without_return,
};

/// The size, in tenths, at which a Terminess font is drawn sharply.
pub const TERMINESS_FONT_SIZE: u32 = 170;

// ---------------------------------------------------------------------------
// Setting the size
// ---------------------------------------------------------------------------

/// A line that sets the font size.
pub open spec fn sets_font_size(line: Seq<char>) -> bool {
    begins(trimmed(line), "font-size"@)
}

/// The lines that do not set the font size.
pub open spec fn other_lines(ls: Seq<Seq<char>>) -> Seq<Seq<char>> {
    ls.filter(|l: Seq<char>| !sets_font_size(l))
}

/// The line that sets the font size to so many tenths.
pub open spec fn size_line(font_size: nat) -> Seq<char> {
    "font-size = "@ + with_one_decimal(font_size)
}

/// `content` with its font size set: the other lines stay, and one line that
/// sets the size stands behind them.
pub open spec fn with_font_size(content: Seq<char>, font_size: nat) -> Seq<char> {
    unlines(other_lines(lines(content)).push(size_line(font_size)))
}

/// `content` without the lines that set the font size.
pub open spec fn without_font_size(content: Seq<char>) -> Seq<char> {
    unlines(other_lines(lines(content)))
}

/// Decides whether a line sets the font size.
fn is_size_line(line: &str) -> (yes: bool)
    ensures
        yes == sets_font_size(line@),
{
    begins_with(&trim_chars(&chars_of(line)), &chars_of("font-size"))
}

/// Collects the lines that do not set the font size.
fn collect_other_lines(content: &str) -> (kept: Vec<String>)
    ensures
        views(kept@) == other_lines(lines(content@)),
{
    let all: Vec<String> = split_lines(content);
    let ghost other = |l: Seq<char>| !sets_font_size(l);
    let mut kept: Vec<String> = Vec::new();
    let mut i: usize = 0;
    proof {
        reveal(Seq::filter);
        assert(views(kept@) =~= views(all@).take(0).filter(other));
    }
    while i < all.len()
        invariant
            i <= all.len(),
            other == (|l: Seq<char>| !sets_font_size(l)),
            views(kept@) == views(all@).take(i as int).filter(other),
        decreases all.len() - i,
    {
        proof {
            let line = all@[i as int]@;
            views(all@).take(i as int).lemma_filter_push(line, other);
            assert(views(all@).take(i + 1) =~= views(all@).take(i as int).push(line));
        }
        if !is_size_line(all[i].as_str()) {
            let line: String = all[i].clone();
            assert(views(kept@.push(line)) =~= views(kept@).push(line@));
            kept.push(line);
        }
        i = i + 1;
    }
    assert(views(all@).take(i as int) =~= views(all@));
    kept
}

/// The content of the configuration with the font size set.
pub fn apply_ghostty_font_size(content: &str, font_size: u32) -> (new_content: String)
    ensures
        new_content@ == with_font_size(content@, font_size as nat),
{
    let mut kept: Vec<String> = collect_other_lines(content);
    let mut line: String = String::new();
    line.append("font-size = ");
    line.append(one_decimal_text(font_size).as_str());
    proof {
        assert(line@ =~= size_line(font_size as nat));
        assert(views(kept@.push(line)) =~= views(kept@).push(line@));
    }
    kept.push(line);
    join_lines(&kept)
}

/// What to write back when the size is to be restored: the content from before,
/// where it is known; else the present content without its font size; nothing
/// where there is no file.
pub open spec fn restored(before: Option<Seq<char>>, present: Option<Seq<char>>) -> Option<
    Seq<char>,
> {
    match before {
        Some(content) => Some(content),
        None => match present {
            Some(content) => Some(without_font_size(content)),
            None => None,
        },
    }
}

/// Where the terminal's local configuration is kept under a home directory.
pub fn local_config_path(home: &str) -> (path: String)
    ensures
        path@ == home@ + "/.config/ghostty/config.local"@,
{
    let mut path: String = home.to_owned();
    path.append("/.config/ghostty/config.local");
    path
}

/// What to write back when the size is to be restored.
pub fn restore_ghostty_font_size(original_config: Option<&str>, present: Option<&str>) -> (content:
    Option<String>)
    ensures
        (match content {
            Some(c) => Some(c@),
            None => None,
        }) == restored(opt_view(original_config), opt_view(present)),
{
    match original_config {
        Some(before) => Some(before.to_owned()),
        None => match present {
            Some(now) => Some(join_lines(&collect_other_lines(now))),
            None => None,
        },
    }
}

// ---------------------------------------------------------------------------
// Reading the size
// ---------------------------------------------------------------------------

/// What `line` sets `key` to, if it sets it.
pub open spec fn setting(line: Seq<char>, key: Seq<char>) -> Option<Seq<char>> {
    let text = trimmed(line);
    let rest = trimmed(text.skip(key.len() as int));
    if begins(text, key) && rest.len() > 0 && rest[0] == '=' {
        Some(trimmed(rest.skip(1)))
    } else {
        None
    }
}

/// The size that `line` asks for, if it asks for one.
pub open spec fn size_in_line(line: Seq<char>) -> Option<u32> {
    match setting(line, "font-size"@) {
        Some(value) => u32_tenths_value(value),
        None => None,
    }
}

/// The size that the last of the lines that ask for one asks for.
pub open spec fn size_in_lines(ls: Seq<Seq<char>>) -> Option<u32>
    decreases ls.len(),
{
    if ls.len() == 0 {
        None
    } else {
        match size_in_line(ls.last()) {
            Some(size) => Some(size),
            None => size_in_lines(ls.drop_last()),
        }
    }
}

/// A line that chooses a Terminess font.
pub open spec fn chooses_terminess(line: Seq<char>) -> bool {
    match setting(line, "font-family"@) {
        Some(value) => has_part(value, "Terminess"@),
        None => false,
    }
}

/// The size that a configuration starts from: the one that it asks for, else
/// the one that suits its font.
pub open spec fn baseline(content: Seq<char>) -> u32 {
    match size_in_lines(lines(content)) {
        Some(size) => size,
        None => if exists|i: int|
            0 <= i < lines(content).len() && chooses_terminess(#[trigger] lines(content)[i]) {
            TERMINESS_FONT_SIZE
        } else {
            DEFAULT_FONT_SIZE
        },
    }
}

/// The characters behind the first `from`.
fn tail(chars: &Vec<char>, from: usize) -> (rest: Vec<char>)
    requires
        from <= chars.len(),
    ensures
        rest@ == chars@.skip(from as int),
{
    let mut rest: Vec<char> = Vec::new();
    let mut i: usize = from;
    while i < chars.len()
        invariant
            from <= i <= chars.len(),
            rest@ == chars@.subrange(from as int, i as int),
        decreases chars.len() - i,
    {
        rest.push(chars[i]);
        assert(rest@ =~= chars@.subrange(from as int, i + 1));
        i = i + 1;
    }
    assert(rest@ =~= chars@.skip(from as int));
    rest
}

/// Reads what `line` sets `key` to.
fn read_setting(line: &str, key: &str) -> (value: Option<Vec<char>>)
    ensures
        (match value {
            Some(v) => Some(v@),
            None => None,
        }) == setting(line@, key@),
{
    let text: Vec<char> = trim_chars(&chars_of(line));
    let key_chars: Vec<char> = chars_of(key);
    if !begins_with(&text, &key_chars) {
        return None;
    }
    let rest: Vec<char> = trim_chars(&tail(&text, key_chars.len()));
    if rest.len() > 0 && rest[0] == '=' {
        Some(trim_chars(&tail(&rest, 1)))
    } else {
        None
    }
}

/// The size, in tenths, that a configuration starts from.
pub fn detect_ghostty_config_baseline(content: &str) -> (size: u32)
    ensures
        size == baseline(content@),
{
    let all: Vec<String> = split_lines(content);
    let mut size: Option<u32> = None;
    let mut terminess: bool = false;
    let mut i: usize = 0;
    while i < all.len()
        invariant
            i <= all.len(),
            views(all@) == lines(content@),
            size == size_in_lines(views(all@).take(i as int)),
            terminess == exists|k: int|
                0 <= k < i && chooses_terminess(#[trigger] views(all@)[k]),
        decreases all.len() - i,
    {
        proof {
            let next = views(all@).take(i + 1);
            assert(next.drop_last() =~= views(all@).take(i as int));
            assert(next.last() == all@[i as int]@);
            assert(views(all@)[i as int] == all@[i as int]@);
        }
        match read_setting(all[i].as_str(), "font-size") {
            Some(value) => {
                match parse_tenths(&value) {
                    Some(tenths) => {
                        size = Some(tenths);
                    },
                    None => {},
                }
            },
            None => {},
        }
        match read_setting(all[i].as_str(), "font-family") {
            Some(value) => {
                if contains_part(&value, &chars_of("Terminess")) {
                    terminess = true;
                }
            },
            None => {},
        }
        i = i + 1;
    }
    assert(views(all@).take(i as int) =~= views(all@));
    match size {
        Some(tenths) => tenths,
        None => if terminess {
            TERMINESS_FONT_SIZE
        } else {
            DEFAULT_FONT_SIZE
        },
    }
}

/// The size that the terminal starts from: what its configuration says, or the
/// default where there is no configuration.
pub fn get_base_font_size(config: Option<&str>) -> (size: u32)
    ensures
        size == (match config {
            Some(content) => baseline(content@),
            None => DEFAULT_FONT_SIZE,
        }),
{
    match config {
        Some(content) => detect_ghostty_config_baseline(content),
        None => DEFAULT_FONT_SIZE,
    }
}

// ---------------------------------------------------------------------------
// Laws
// ---------------------------------------------------------------------------

/// No line of `content` but those that set the size ends with a carriage return
/// of its own.
pub open spec fn return_free(content: Seq<char>) -> bool {
    let kept = other_lines(lines(content));
    forall|i: int| 0 <= i < kept.len() ==> without_return(#[trigger] kept[i]) == kept[i]
}

/// The line that sets the size begins and ends with visible characters, holds
/// no line feed, and sets the size.
proof fn lemma_size_line(font_size: nat)
    ensures
        trimmed(size_line(font_size)) == size_line(font_size),
        without_return(size_line(font_size)) == size_line(font_size),
        forall|k: int|
            0 <= k < size_line(font_size).len() ==> #[trigger] size_line(font_size)[k] != '\n',
        sets_font_size(size_line(font_size)),
{
    let line = size_line(font_size);
    let head = "font-size = "@;
    let number = with_one_decimal(font_size);
    reveal_strlit("font-size = ");
    reveal_strlit("font-size");
    decimal_reads_back(font_size / 10);
    assert forall|k: int| 0 <= k < line.len() implies #[trigger] line[k] != '\n' by {
        if k >= head.len() {
            let j = k - head.len();
            assert(line[k] == number[j]);
            if j < decimal(font_size / 10).len() {
                assert(number[j] == decimal(font_size / 10)[j]);
            }
        }
    }
    assert(line[0] == 'f');
    assert(line.last() == digit(font_size % 10));
    crate::text::tight_text_is_trimmed(line);
    assert(line.subrange(0, 9) =~= "font-size"@);
}

/// The line that sets the size asks for that size.
proof fn lemma_size_line_asks(font_size: u32)
    ensures
        size_in_line(size_line(font_size as nat)) == Some(font_size),
{
    let n = font_size as nat;
    let line = size_line(n);
    let number = with_one_decimal(n);
    lemma_size_line(n);
    decimal_reads_back(n / 10);
    one_decimal_reads_back(n);
    reveal_strlit("font-size = ");
    reveal_strlit("font-size");
    let after_key = line.skip(9);
    let assignment = seq!['=', ' '] + number;
    assert(after_key =~= seq![' '] + assignment);
    crate::text::leading_white_is_trimmed(' ', assignment);
    assert(assignment.last() == digit(n % 10));
    crate::text::tight_text_is_trimmed(assignment);
    let value = assignment.skip(1);
    assert(value =~= seq![' '] + number);
    crate::text::leading_white_is_trimmed(' ', number);
    assert(number[0] == decimal(n / 10)[0]);
    assert(number.last() == digit(n % 10));
    crate::text::tight_text_is_trimmed(number);
    assert(setting(line, "font-size"@) == Some(number));
}

/// A carriage return at the end of a line does not change whether the line
/// sets the size.
proof fn lemma_return_is_no_matter(line: Seq<char>)
    ensures
        sets_font_size(without_return(line)) == sets_font_size(line),
{
    if line.len() > 0 && line.last() == '\r' {
        trailing_white_is_trimmed(line.drop_last(), '\r');
        assert(line.drop_last().push('\r') =~= line);
    }
}

/// Whatever is kept of some lines is among them.
proof fn lemma_other_lines(ls: Seq<Seq<char>>)
    ensures
        forall|i: int|
            0 <= i < other_lines(ls).len() ==> ls.contains(#[trigger] other_lines(ls)[i])
                && !sets_font_size(other_lines(ls)[i]),
{
    let other = |l: Seq<char>| !sets_font_size(l);
    let kept = other_lines(ls);
    assert forall|i: int| 0 <= i < kept.len() implies ls.contains(#[trigger] kept[i])
        && !sets_font_size(kept[i]) by {
        ls.lemma_filter_pred(other, i);
        assert(kept.contains(kept[i]));
        ls.lemma_filter_contains_rev(other, kept[i]);
    }
}

/// Lines none of which sets the size are all kept.
proof fn lemma_all_kept(ls: Seq<Seq<char>>)
    requires
        forall|i: int| 0 <= i < ls.len() ==> !sets_font_size(#[trigger] ls[i]),
    ensures
        other_lines(ls) == ls,
    decreases ls.len(),
{
    reveal(Seq::filter);
    if ls.len() > 0 {
        let front = ls.drop_last();
        assert forall|i: int| 0 <= i < front.len() implies !sets_font_size(#[trigger] front[i]) by {
            assert(front[i] == ls[i]);
        }
        lemma_all_kept(front);
        assert(!sets_font_size(ls[ls.len() - 1]));
        assert(front.push(ls.last()) =~= ls);
    }
}

/// The lines of a configuration whose size was set: those kept, each without a
/// carriage return at its end, and the line that sets the size.
proof fn lemma_lines_of_applied(content: Seq<char>, font_size: nat)
    ensures
        lines(with_font_size(content, font_size)) == other_lines(lines(content)).map_values(
            |l: Seq<char>| without_return(l),
        ).push(size_line(font_size)),
{
    let kept = other_lines(lines(content));
    let all = kept.push(size_line(font_size));
    let cut = |l: Seq<char>| without_return(l);
    lines_are_feed_free(content);
    lemma_other_lines(lines(content));
    lemma_size_line(font_size);
    assert forall|i: int, k: int|
        0 <= i < all.len() && 0 <= k < all[i].len() implies #[trigger] all[i][k] != '\n' by {
        if i < kept.len() {
            assert(all[i] == kept[i]);
            assert(lines(content).contains(kept[i]));
            let m = choose|m: int| 0 <= m < lines(content).len() && lines(content)[m] == kept[i];
            assert(lines(content)[m][k] != '\n');
        } else {
            assert(size_line(font_size)[k] != '\n');
        }
    }
    split_of_joined(all);
    assert(all.map_values(cut) =~= kept.map_values(cut).push(size_line(font_size)));
}

/// A configuration whose size was set has exactly one line that sets it, the
/// line for that size.
pub proof fn one_line_sets_the_size(content: Seq<char>, font_size: nat)
    ensures
        lines(with_font_size(content, font_size)).filter(|l: Seq<char>| sets_font_size(l))
            == seq![size_line(font_size)],
{
    let sets = |l: Seq<char>| sets_font_size(l);
    let cut = |l: Seq<char>| without_return(l);
    let kept = other_lines(lines(content));
    let bare = kept.map_values(cut);
    lemma_lines_of_applied(content, font_size);
    lemma_size_line(font_size);
    lemma_other_lines(lines(content));
    assert forall|i: int| 0 <= i < bare.len() implies !sets(#[trigger] bare[i]) by {
        assert(!sets_font_size(kept[i]));
        lemma_return_is_no_matter(kept[i]);
    }
    bare.lemma_all_neg_filter_empty(sets);
    assert(bare.filter(sets) =~= Seq::<Seq<char>>::empty());
    bare.lemma_filter_push(size_line(font_size), sets);
    assert(Seq::<Seq<char>>::empty().push(size_line(font_size)) =~= seq![size_line(font_size)]);
}

/// The lines that are kept of a configuration whose size was set: those that were
/// kept before, each without a carriage return at its end.
proof fn lemma_kept_of_applied(content: Seq<char>, font_size: nat)
    ensures
        other_lines(lines(with_font_size(content, font_size))) == other_lines(
            lines(content),
        ).map_values(|l: Seq<char>| without_return(l)),
{
    let cut = |l: Seq<char>| without_return(l);
    let kept = other_lines(lines(content));
    let bare = kept.map_values(cut);
    lemma_lines_of_applied(content, font_size);
    lemma_other_lines(lines(content));
    lemma_size_line(font_size);
    assert forall|i: int| 0 <= i < bare.len() implies !sets_font_size(#[trigger] bare[i]) by {
        assert(!sets_font_size(kept[i]));
        lemma_return_is_no_matter(kept[i]);
    }
    bare.lemma_filter_push(size_line(font_size), |l: Seq<char>| !sets_font_size(l));
    lemma_all_kept(bare);
}

/// Lines from which carriage returns are cut join to a shorter text, unless there
/// was none to cut.
proof fn lemma_cut_is_shorter(ls: Seq<Seq<char>>)
    ensures
        ({
            let bare = ls.map_values(|l: Seq<char>| without_return(l));
            &&& unlines(bare).len() <= unlines(ls).len()
            &&& unlines(bare).len() == unlines(ls).len() ==> bare == ls
        }),
    decreases ls.len(),
{
    let cut = |l: Seq<char>| without_return(l);
    let bare = ls.map_values(cut);
    if ls.len() > 0 {
        let front = ls.drop_last();
        lemma_cut_is_shorter(front);
        assert(bare.drop_last() =~= front.map_values(cut));
        assert(bare.last() == without_return(ls.last()));
        if unlines(bare).len() == unlines(ls).len() {
            assert(front.push(ls.last()) =~= ls);
            assert(bare.drop_last().push(bare.last()) =~= bare);
        }
    } else {
        assert(bare =~= ls);
    }
}

/// Cutting changes nothing exactly where no kept line ends with a carriage return.
proof fn lemma_return_free_is_uncut(content: Seq<char>)
    ensures
        return_free(content) <==> other_lines(lines(content)).map_values(
            |l: Seq<char>| without_return(l),
        ) == other_lines(lines(content)),
{
    let kept = other_lines(lines(content));
    let bare = kept.map_values(|l: Seq<char>| without_return(l));
    if return_free(content) {
        assert(bare =~= kept);
    }
    if bare == kept {
        assert forall|i: int| 0 <= i < kept.len() implies without_return(#[trigger] kept[i])
            == kept[i] by {
            assert(bare[i] == kept[i]);
        }
    }
}

/// The last size that is set is the one that counts: setting a size over another
/// gives what setting it at once gives. In particular setting the same size again
/// changes nothing. This holds of a configuration exactly where no line but those
/// that set the size ends with a carriage return of its own: where one does, the
/// line feed behind it makes it part of the line's end.
pub proof fn last_size_counts(content: Seq<char>, first: nat, second: nat)
    ensures
        with_font_size(with_font_size(content, first), second) == with_font_size(content, second)
            <==> return_free(content),
{
    let kept = other_lines(lines(content));
    let bare = kept.map_values(|l: Seq<char>| without_return(l));
    let line = size_line(second);
    lemma_kept_of_applied(content, first);
    lemma_return_free_is_uncut(content);
    lemma_cut_is_shorter(kept);
    assert(bare.push(line).drop_last() =~= bare);
    assert(kept.push(line).drop_last() =~= kept);
    assert(unlines(bare.push(line)) == unlines(bare) + line.push('\n'));
    assert(unlines(kept.push(line)) == unlines(kept) + line.push('\n'));
}

/// Taking the size out gives the same whether or not one was set before, exactly
/// where no line but those that set the size ends with a carriage return of its
/// own.
pub proof fn removing_undoes_setting(content: Seq<char>, font_size: nat)
    ensures
        without_font_size(with_font_size(content, font_size)) == without_font_size(content)
            <==> return_free(content),
{
    lemma_kept_of_applied(content, font_size);
    lemma_return_free_is_uncut(content);
    lemma_cut_is_shorter(other_lines(lines(content)));
}

/// A restore that knows the content from before brings it back, whatever was
/// set in between.
pub proof fn restoring_brings_back(content: Seq<char>, present: Option<Seq<char>>)
    ensures
        restored(Some(content), present) == Some(content),
{
}

/// The size that was set is the size that the configuration asks for.
pub proof fn size_reads_back(content: Seq<char>, font_size: u32)
    ensures
        baseline(with_font_size(content, font_size as nat)) == font_size,
{
    lemma_lines_of_applied(content, font_size as nat);
    lemma_size_line_asks(font_size);
}

/// The line is about the font size: behind the white space at its beginning it
/// goes on with the nine characters `font-size`.
pub open spec fn is_about_size(line: Seq<char>) -> bool {
    trimmed(line).len() >= 9 && trimmed(line).take(9) == "font-size"@
}

/// The lines that are not about the font size, in their order.
pub open spec fn lines_to_keep(content: Seq<char>) -> Seq<Seq<char>> {
    lines(content).filter(|l: Seq<char>| !is_about_size(l))
}

proof fn lemma_lines_to_keep(content: Seq<char>)
    ensures
        other_lines(lines(content)) == lines_to_keep(content),
{
    reveal_strlit("font-size");
    assert forall|l: Seq<char>| #[trigger] sets_font_size(l) == is_about_size(l) by {
        if trimmed(l).len() >= 9 {
            assert(trimmed(l).subrange(0, 9) =~= trimmed(l).take(9));
        }
    }
    assert((|l: Seq<char>| !sets_font_size(l)) =~= (|l: Seq<char>| !is_about_size(l)));
}

/// Setting the size keeps every line of the configuration that is not about the
/// font size, in order and unchanged, each with a line feed behind it; and puts
/// one line behind them, which says the size. Nothing else comes or goes.
pub proof fn setting_keeps_every_other_line(content: Seq<char>, font_size: nat)
    ensures
        with_font_size(content, font_size) == lines_to_keep(content).map_values(
            |l: Seq<char>| l + seq!['\n'],
        ).flatten() + "font-size = "@ + with_one_decimal(font_size) + seq!['\n'],
{
    let kept = lines_to_keep(content);
    let line = size_line(font_size);
    let ended = |l: Seq<char>| l + seq!['\n'];
    lemma_lines_to_keep(content);
    crate::text::joining_puts_line_feeds_behind(kept.push(line));
    assert(kept.push(line).map_values(ended) =~= kept.map_values(ended).push(line + seq!['\n']));
    kept.map_values(ended).lemma_flatten_push(line + seq!['\n']);
    assert(with_font_size(content, font_size) =~= kept.map_values(ended).flatten()
        + "font-size = "@ + with_one_decimal(font_size) + seq!['\n']);
}

/// Taking the size out keeps every line of the configuration that is not about the
/// font size, in order and unchanged, each with a line feed behind it, and nothing
/// else.
pub proof fn removing_keeps_every_other_line(content: Seq<char>)
    ensures
        without_font_size(content) == lines_to_keep(content).map_values(
            |l: Seq<char>| l + seq!['\n'],
        ).flatten(),
{
    lemma_lines_to_keep(content);
    crate::text::joining_puts_line_feeds_behind(lines_to_keep(content));
}

/// What was on a line that is not about the font size is found again on the lines
/// of the new configuration, at the same place among those lines, but for one
/// carriage return at its end; the line behind them is the last.
pub proof fn other_lines_are_found_again(content: Seq<char>, font_size: nat, i: int)
    requires
        0 <= i < lines_to_keep(content).len(),
    ensures
        ({
            let new = lines(with_font_size(content, font_size));
            let line = lines_to_keep(content)[i];
            &&& new.len() == lines_to_keep(content).len() + 1
            &&& new[i] == if line.len() > 0 && line[line.len() - 1] == '\r' {
                line.take(line.len() - 1)
            } else {
                line
            }
            &&& new[new.len() - 1] == "font-size = "@ + with_one_decimal(font_size)
        }),
{
    let line = lines_to_keep(content)[i];
    lemma_lines_to_keep(content);
    lemma_lines_of_applied(content, font_size);
    if line.len() > 0 {
        assert(line.drop_last() =~= line.take(line.len() - 1));
    }
}

/// Restoring writes the configuration from before where it is known, whatever
/// stands in the file; else it takes the size out of the file where there is one;
/// and where there is none it writes nothing.
pub proof fn restoring_goes_by_what_is_known(content: Seq<char>, present: Option<Seq<char>>)
    ensures
        restored(Some(content), present) == Some(content),
        restored(None, Some(content)) == Some(
            lines_to_keep(content).map_values(|l: Seq<char>| l + seq!['\n']).flatten(),
        ),
        restored(None, None) == None::<Seq<char>>,
{
    removing_keeps_every_other_line(content);
}

/// What a line sets a key to: behind the white space at its beginning it goes on
/// with the key, white space, and an equals sign, and the value is the rest
/// without the white space around it.
pub open spec fn sets_to(line: Seq<char>, key: Seq<char>, value: Seq<char>) -> bool {
    exists|rest: Seq<char>, assigned: Seq<char>|
        trimmed(line) == #[trigger] (key + rest) && trimmed(rest) == #[trigger] (seq!['=']
            + assigned) && trimmed(assigned) == value
}

proof fn lemma_setting(line: Seq<char>, key: Seq<char>, value: Seq<char>)
    ensures
        setting(line, key) == Some(value) <==> sets_to(line, key, value),
{
    let text = trimmed(line);
    if setting(line, key) == Some(value) {
        let rest = text.skip(key.len() as int);
        let assigned = trimmed(rest).skip(1);
        assert(text =~= key + rest);
        assert(trimmed(rest) =~= seq!['='] + assigned);
    }
    if sets_to(line, key, value) {
        let (rest, assigned) = choose|rest: Seq<char>, assigned: Seq<char>|
            trimmed(line) == #[trigger] (key + rest) && trimmed(rest) == #[trigger] (seq!['=']
                + assigned) && trimmed(assigned) == value;
        assert(text.skip(key.len() as int) =~= rest);
        assert(text.subrange(0, key.len() as int) =~= key);
        assert(trimmed(rest).skip(1) =~= assigned);
    }
}

/// The last line of a configuration that sets the font size to a number counts.
pub proof fn the_last_size_line_counts(
    content: Seq<char>,
    i: int,
    value: Seq<char>,
    size: u32,
)
    requires
        0 <= i < lines(content).len(),
        sets_to(lines(content)[i], "font-size"@, value),
        u32_tenths_value(value) == Some(size),
        forall|j: int, later: Seq<char>|
            i < j < lines(content).len() && #[trigger] sets_to(
                lines(content)[j],
                "font-size"@,
                later,
            ) ==> u32_tenths_value(later) is None,
    ensures
        baseline(content) == size,
{
    let ls = lines(content);
    lemma_setting(ls[i], "font-size"@, value);
    assert forall|j: int| i < j < ls.len() implies size_in_line(#[trigger] ls[j]) is None by {
        match setting(ls[j], "font-size"@) {
            Some(later) => {
                lemma_setting(ls[j], "font-size"@, later);
                assert(sets_to(lines(content)[j], "font-size"@, later));
            },
            None => {},
        }
    }
    lemma_last_size(ls, i);
}

proof fn lemma_last_size(ls: Seq<Seq<char>>, i: int)
    requires
        0 <= i < ls.len(),
        size_in_line(ls[i]) is Some,
        forall|j: int| i < j < ls.len() ==> size_in_line(#[trigger] ls[j]) is None,
    ensures
        size_in_lines(ls) == size_in_line(ls[i]),
    decreases ls.len(),
{
    if i < ls.len() - 1 {
        let front = ls.drop_last();
        assert(size_in_line(ls[ls.len() - 1]) is None);
        assert forall|j: int| i < j < front.len() implies size_in_line(
            #[trigger] front[j],
        ) is None by {
            assert(front[j] == ls[j]);
        }
        lemma_last_size(front, i);
    }
}

/// A configuration no line of which sets the font size to a number starts from
/// seventeen points where a line sets the font family to one with `Terminess` in
/// its name, and from twelve otherwise.
pub proof fn the_family_decides_without_a_size(content: Seq<char>)
    requires
        forall|i: int, value: Seq<char>|
            0 <= i < lines(content).len() && #[trigger] sets_to(
                lines(content)[i],
                "font-size"@,
                value,
            ) ==> u32_tenths_value(value) is None,
    ensures
        baseline(content) == if exists|i: int, value: Seq<char>, a: Seq<char>, b: Seq<char>|
            0 <= i < lines(content).len() && #[trigger] sets_to(
                lines(content)[i],
                "font-family"@,
                value,
            ) && value == #[trigger] (a + "Terminess"@ + b) {
            170u32
        } else {
            120u32
        },
{
    let ls = lines(content);
    assert forall|i: int| 0 <= i < ls.len() implies size_in_line(#[trigger] ls[i]) is None by {
        match setting(ls[i], "font-size"@) {
            Some(value) => {
                lemma_setting(ls[i], "font-size"@, value);
                assert(sets_to(lines(content)[i], "font-size"@, value));
            },
            None => {},
        }
    }
    lemma_no_size(ls);
    if exists|i: int| 0 <= i < ls.len() && chooses_terminess(#[trigger] ls[i]) {
        let i = choose|i: int| 0 <= i < ls.len() && chooses_terminess(#[trigger] ls[i]);
        let value = setting(ls[i], "font-family"@)->0;
        lemma_setting(ls[i], "font-family"@, value);
        crate::text::parts_stand_inside(value, "Terminess"@);
        let (a, b) = choose|a: Seq<char>, b: Seq<char>|
            value == #[trigger] (a + "Terminess"@ + b);
        assert(sets_to(lines(content)[i], "font-family"@, value));
        assert(value == a + "Terminess"@ + b);
    }
    if exists|i: int, value: Seq<char>, a: Seq<char>, b: Seq<char>|
        0 <= i < lines(content).len() && #[trigger] sets_to(
            lines(content)[i],
            "font-family"@,
            value,
        ) && value == #[trigger] (a + "Terminess"@ + b) {
        let (i, value, a, b) = choose|i: int, value: Seq<char>, a: Seq<char>, b: Seq<char>|
            0 <= i < lines(content).len() && #[trigger] sets_to(
                lines(content)[i],
                "font-family"@,
                value,
            ) && value == #[trigger] (a + "Terminess"@ + b);
        lemma_setting(ls[i], "font-family"@, value);
        crate::text::parts_stand_inside(value, "Terminess"@);
        assert(chooses_terminess(ls[i]));
    }
}

proof fn lemma_no_size(ls: Seq<Seq<char>>)
    requires
        forall|i: int| 0 <= i < ls.len() ==> size_in_line(#[trigger] ls[i]) is None,
    ensures
        size_in_lines(ls) is None,
    decreases ls.len(),
{
    if ls.len() > 0 {
        let front = ls.drop_last();
        assert forall|i: int| 0 <= i < front.len() implies size_in_line(
            #[trigger] front[i],
        ) is None by {
            assert(front[i] == ls[i]);
        }
        assert(size_in_line(ls[ls.len() - 1]) is None);
        lemma_no_size(front);
    }
}

} // verus!
