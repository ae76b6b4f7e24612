//! What a note window decides on its own: its title, whether a flush
//! writes anything, how its bars look, and where a search starts.

use vstd::prelude::*;
use crate::text::{chars_of, is_space, push_char, string_of, trim, trim_bounds, trim_start};

verus! {

/// Titles longer than this many characters are cut and end in `…`.
pub const TITLE_MAX_CHARS: usize = 40;

/// The first non-blank line of the text that remains after `cur`, the
/// part of the current line read so far; lines are split at `\n` and
/// compared with their white space trimmed (`str::lines` then `str::trim`).
pub open spec fn first_nonblank_line_from(t: Seq<char>, cur: Seq<char>) -> Option<Seq<char>>
    decreases t.len(),
{
    if t.len() == 0 {
        if trim(cur).len() > 0 {
            Some(trim(cur))
        } else {
            None
        }
    } else if t[0] == '\n' {
        if trim(cur).len() > 0 {
            Some(trim(cur))
        } else {
            first_nonblank_line_from(t.drop_first(), seq![])
        }
    } else {
        first_nonblank_line_from(t.drop_first(), cur.push(t[0]))
    }
}

/// The first line of `t` that is not blank, trimmed.
pub open spec fn first_nonblank_line(t: Seq<char>) -> Option<Seq<char>> {
    first_nonblank_line_from(t, seq![])
}

/// At most `TITLE_MAX_CHARS` characters of `line`, with `…` after them
/// when the line was longer.
pub open spec fn shorten(line: Seq<char>) -> Seq<char> {
    if line.len() > TITLE_MAX_CHARS {
        line.take(TITLE_MAX_CHARS as int).push('…')
    } else {
        line
    }
}

/// A note's title: its first non-blank line, trimmed and shortened;
/// `New note` when the note is blank.
pub open spec fn note_title(t: Seq<char>) -> Seq<char> {
    match first_nonblank_line(t) {
        Some(line) => shorten(line),
        None => shorten("New note"@),
    }
}

fn shortened(v: &Vec<char>, a: usize, b: usize) -> (title: String)
    requires
        a < b <= v@.len(),
    ensures
        title@ == shorten(v@.subrange(a as int, b as int)),
{
    let end = if b - a > TITLE_MAX_CHARS {
        a + TITLE_MAX_CHARS
    } else {
        b
    };
    let mut title = string_of(v, a, end);
    if b - a > TITLE_MAX_CHARS {
        assert(v@.subrange(a as int, end as int) =~= v@.subrange(a as int, b as int).take(
            TITLE_MAX_CHARS as int,
        ));
        push_char(&mut title, '…');
    }
    title
}

/// The title a note window shows for its text (the tray menu shows it too).
pub fn title_from_text(text: &str) -> (title: String)
    ensures
        title@ == note_title(text@),
{
    let v = chars_of(text);
    let n = v.len();
    let mut ls: usize = 0;
    let mut i: usize = 0;
    assert(v@.skip(0) =~= v@);
    assert(v@.subrange(0, 0) =~= Seq::<char>::empty());
    while i < n
        invariant
            ls <= i <= n,
            n == v@.len(),
            v@ == text@,
            first_nonblank_line(v@) == first_nonblank_line_from(
                v@.skip(i as int),
                v@.subrange(ls as int, i as int),
            ),
        decreases n - i,
    {
        let ghost rest = v@.skip(i as int);
        assert(rest[0] == v@[i as int]);
        assert(rest.drop_first() =~= v@.skip(i + 1));
        if v[i] == '\n' {
            let (a, b) = trim_bounds(&v, ls, i);
            if a < b {
                return shortened(&v, a, b);
            }
            assert(v@.subrange(i + 1, i + 1) =~= Seq::<char>::empty());
            ls = i + 1;
        } else {
            assert(v@.subrange(ls as int, i as int).push(v@[i as int]) =~= v@.subrange(
                ls as int,
                i + 1,
            ));
        }
        i = i + 1;
    }
    assert(v@.skip(n as int).len() == 0);
    let (a, b) = trim_bounds(&v, ls, n);
    if a < b {
        shortened(&v, a, b)
    } else {
        proof {
            reveal_strlit("New note");
        }
        String::from_str("New note")
    }
}


/// Whether saving a note now writes its file: a note that has never been
/// typed in and is still empty leaves no file behind, so an accidental new
/// note and close does not litter the notes folder; once typed in, even a
/// cleared note is saved (clearing must persist).
pub fn flush_writes(ever_dirty: bool, text: &str) -> (write: bool)
    ensures
        write == (ever_dirty || text@.len() > 0),
{
    ever_dirty || !text.is_empty()
}

/// Where a text search starts.
#[derive(Debug, Clone, Copy, PartialEq, Eq)]
pub enum SearchFrom {
    /// The start of the text.
    Start,
    /// The end of the text.
    End,
    /// A character offset in the text.
    Offset(i32),
}

/// A search of the find bar: where it starts, where it starts again when
/// it reaches the edge of the text without a match, and its direction.
#[derive(Debug, Clone, Copy, PartialEq, Eq)]
pub struct SearchPlan {
    pub from: SearchFrom,
    pub wrap_from: SearchFrom,
    pub backwards: bool,
}

/// The search for the find-bar text: from the selection (its start going
/// backwards, its end going forwards) or the edge of the text when nothing
/// is selected, wrapping around at the other edge (the end going
/// backwards, the start going forwards). An empty query searches nothing.
pub fn search_plan(query: &str, backwards: bool, selection: Option<(i32, i32)>) -> (plan: Option<
    SearchPlan,
>)
    ensures
        query@.len() == 0 ==> plan is None,
        query@.len() > 0 ==> plan == Some(
            SearchPlan {
                from: match selection {
                    Some((start, end)) => SearchFrom::Offset(
                        if backwards {
                            start
                        } else {
                            end
                        },
                    ),
                    None => if backwards {
                        SearchFrom::End
                    } else {
                        SearchFrom::Start
                    },
                },
                wrap_from: if backwards {
                    SearchFrom::End
                } else {
                    SearchFrom::Start
                },
                backwards,
            },
        ),
{
    if query.is_empty() {
        return None;
    }
    let from = match selection {
        Some((start, end)) => SearchFrom::Offset(
            if backwards {
                start
            } else {
                end
            },
        ),
        None => if backwards {
            SearchFrom::End
        } else {
            SearchFrom::Start
        },
    };
    let wrap_from = if backwards {
        SearchFrom::End
    } else {
        SearchFrom::Start
    };
    Some(SearchPlan { from, wrap_from, backwards })
}


proof fn lemma_first_nonblank_nonempty(t: Seq<char>, cur: Seq<char>)
    ensures
        first_nonblank_line_from(t, cur) matches Some(l) ==> l.len() > 0,
    decreases t.len(),
{
    if t.len() > 0 {
        if t[0] == '\n' {
            lemma_first_nonblank_nonempty(t.drop_first(), seq![]);
        } else {
            lemma_first_nonblank_nonempty(t.drop_first(), cur.push(t[0]));
        }
    }
}

proof fn lemma_line_prefix(t: Seq<char>, cur: Seq<char>, k: int)
    requires
        0 <= k <= t.len(),
        forall|i: int| 0 <= i < k ==> #[trigger] t[i] != '\n',
    ensures
        first_nonblank_line_from(t, cur) == first_nonblank_line_from(t.skip(k), cur + t.take(k)),
    decreases k,
{
    if k == 0 {
        assert(t.skip(0) =~= t);
        assert(cur + t.take(0) =~= cur);
    } else {
        let r = t.drop_first();
        assert forall|i: int| 0 <= i < k - 1 implies #[trigger] r[i] != '\n' by {
            assert(r[i] == t[i + 1]);
        }
        lemma_line_prefix(r, cur.push(t[0]), k - 1);
        assert(r.skip(k - 1) =~= t.skip(k));
        assert(cur.push(t[0]) + r.take(k - 1) =~= cur + t.take(k));
    }
}

/// Law: the title of a note whose first line (the text up to the first
/// line break, or all of it) is not blank is that line with the white
/// space at both ends removed; when that leaves more than 40 characters,
/// the title is its first 40 characters followed by `…`, whatever
/// follows the line.
pub proof fn lemma_title_is_first_line(t: Seq<char>, k: int)
    requires
        0 <= k <= t.len(),
        forall|i: int| 0 <= i < k ==> #[trigger] t[i] != '\n',
        k == t.len() || t[k] == '\n',
        trim(t.take(k)).len() > 0,
    ensures
        trim(t.take(k)).len() <= 40 ==> note_title(t) == trim(t.take(k)),
        trim(t.take(k)).len() > 40 ==> note_title(t) == trim(t.take(k)).take(40).push('…'),
{
    lemma_line_prefix(t, seq![], k);
    assert(Seq::<char>::empty() + t.take(k) =~= t.take(k));
}

/// Law: a blank first line (only white space before the first line
/// break) does not count: the title is that of the text after it.
pub proof fn lemma_title_skips_blank_line(t: Seq<char>, k: int)
    requires
        0 <= k < t.len(),
        forall|i: int| 0 <= i < k ==> #[trigger] t[i] != '\n',
        t[k] == '\n',
        trim(t.take(k)).len() == 0,
    ensures
        note_title(t) == note_title(t.skip(k + 1)),
{
    lemma_line_prefix(t, seq![], k);
    assert(Seq::<char>::empty() + t.take(k) =~= t.take(k));
    assert(t.skip(k).drop_first() =~= t.skip(k + 1));
}

proof fn lemma_all_space_trims_to_nothing(s: Seq<char>)
    requires
        forall|i: int| 0 <= i < s.len() ==> is_space(#[trigger] s[i]),
    ensures
        trim(s).len() == 0,
    decreases s.len(),
{
    if s.len() > 0 {
        assert forall|i: int| 0 <= i < s.drop_first().len() implies is_space(
            #[trigger] s.drop_first()[i],
        ) by {
            assert(s.drop_first()[i] == s[i + 1]);
        }
        lemma_all_space_trims_to_nothing(s.drop_first());
        assert(trim_start(s) == trim_start(s.drop_first()));
    }
}

proof fn lemma_blank_from(t: Seq<char>, cur: Seq<char>)
    requires
        forall|i: int| 0 <= i < t.len() ==> is_space(#[trigger] t[i]),
        forall|i: int| 0 <= i < cur.len() ==> is_space(#[trigger] cur[i]),
    ensures
        first_nonblank_line_from(t, cur) is None,
    decreases t.len(),
{
    lemma_all_space_trims_to_nothing(cur);
    if t.len() > 0 {
        assert forall|i: int| 0 <= i < t.drop_first().len() implies is_space(
            #[trigger] t.drop_first()[i],
        ) by {
            assert(t.drop_first()[i] == t[i + 1]);
        }
        if t[0] == '\n' {
            lemma_blank_from(t.drop_first(), seq![]);
        } else {
            let c = cur.push(t[0]);
            assert forall|i: int| 0 <= i < c.len() implies is_space(#[trigger] c[i]) by {
                if i < cur.len() {
                    assert(c[i] == cur[i]);
                } else {
                    assert(c[i] == t[0]);
                }
            }
            lemma_blank_from(t.drop_first(), c);
        }
    }
}

/// Law: a note with nothing but white space (or nothing at all) is
/// titled `New note`.
pub proof fn lemma_title_of_blank_text(t: Seq<char>)
    requires
        forall|i: int| 0 <= i < t.len() ==> is_space(#[trigger] t[i]),
    ensures
        note_title(t) == "New note"@,
{
    reveal_strlit("New note");
    lemma_blank_from(t, seq![]);
}

/// Law: a note's title is never empty and has at most
/// `TITLE_MAX_CHARS` characters plus the `…` that marks a cut.
pub proof fn lemma_title_shape(t: Seq<char>)
    ensures
        0 < note_title(t).len() <= TITLE_MAX_CHARS + 1,
        note_title(t).len() == TITLE_MAX_CHARS + 1 ==> note_title(t).last() == '…',
{
    reveal_strlit("New note");
    lemma_first_nonblank_nonempty(t, seq![]);
}

} // verus!
