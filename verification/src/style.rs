//! Generated text: the note stylesheet that Preferences rewrites, and
//! the XDG autostart entry for "start after login".

use vstd::prelude::*;
use crate::config::Config;
use crate::text::{
    all_digits, decimal, is_digit, is_space, join_with, push_decimal, push_joined, split_words, words,
    words_from,
};

verus! {

/// The note colors: the custom ones, or the theme's (`inherit` text on a
/// `transparent` background).
pub open spec fn css_colors(c: Config) -> (Seq<char>, Seq<char>) {
    if c.use_custom_colors {
        (c.custom_text@, c.custom_background@)
    } else {
        ("inherit"@, "transparent"@)
    }
}

/// The font rule for the words of a Pango font description ("Sans 9"):
/// a last word of digits is the size in points, the words before it the
/// family; no rule without a family.
pub open spec fn font_rule(parts: Seq<Seq<char>>) -> Seq<char> {
    let has_size = parts.len() > 0 && all_digits(parts.last());
    let family_parts = if has_size {
        parts.drop_last()
    } else {
        parts
    };
    let family = join_with(family_parts, seq![' ']);
    if family.len() == 0 {
        seq![]
    } else {
        ".zpad-note textview { font-family: \""@ + family + "\";"@ + (if has_size {
            " font-size: "@ + parts.last() + "pt;"@
        } else {
            seq![]
        }) + " }\n"@
    }
}

/// The font/colors stylesheet for the preferences.
pub open spec fn dynamic_css_spec(c: Config) -> Seq<char> {
    let (text, background) = css_colors(c);
    ".zpad-note textview, .zpad-note textview text { background-color: "@ + background
        + "; color: "@ + text + "; caret-color: "@ + text + "; }\n"@ + (if c.use_custom_colors {
        ".zpad-note scrolledwindow { background-color: "@ + background + "; }\n"@
    } else {
        seq![]
    }) + (if !c.font_from_theme && c.font_family@.len() > 0 {
        font_rule(words(c.font_family@))
    } else {
        seq![]
    })
}

fn is_all_digits(v: &Vec<char>) -> (r: bool)
    ensures
        r == all_digits(v@),
{
    let mut i: usize = 0;
    while i < v.len()
        invariant
            i <= v@.len(),
            forall|j: int| 0 <= j < i ==> #[trigger] is_digit(v@[j]),
        decreases v@.len() - i,
    {
        let u = v[i] as u32;
        if u < 48 || u > 57 {
            assert(!is_digit(v@[i as int]));
            return false;
        }
        i = i + 1;
    }
    true
}

fn push_chars(s: &mut String, v: &Vec<char>)
    ensures
        final(s)@ == old(s)@ + v@,
{
    let ghost start = s@;
    let mut j: usize = 0;
    while j < v.len()
        invariant
            j <= v@.len(),
            s@ == start + v@.take(j as int),
        decreases v@.len() - j,
    {
        crate::text::push_char(s, v[j]);
        assert(v@.take(j + 1) =~= v@.take(j as int).push(v@[j as int]));
        j = j + 1;
    }
    assert(v@.take(v@.len() as int) =~= v@);
}

fn push_font_rule(css: &mut String, font_family: &str)
    ensures
        final(css)@ == old(css)@ + font_rule(words(font_family@)),
{
    let parts = split_words(font_family);
    let ghost pv = parts@.map_values(|x: Vec<char>| x@);
    let n = parts.len();
    let has_size = n > 0 && is_all_digits(&parts[n - 1]);
    if n > 0 {
        assert(pv.last() == parts@[n - 1]@);
    }
    let k = if has_size {
        n - 1
    } else {
        n
    };
    assert(pv.take(k as int) =~= if has_size {
        pv.drop_last()
    } else {
        pv
    });
    let mut family = String::new();
    push_joined(&mut family, &parts, k);
    assert(family@ =~= join_with(pv.take(k as int), seq![' ']));
    if family.as_str().is_empty() {
        return;
    }
    css.append(".zpad-note textview { font-family: \"");
    css.append(family.as_str());
    css.append("\";");
    if has_size {
        css.append(" font-size: ");
        push_chars(css, &parts[n - 1]);
        css.append("pt;");
    }
    css.append(" }\n");
}

/// The font/colors stylesheet, rewritten whenever Preferences changes.
pub fn dynamic_css(config: &Config) -> (css: String)
    ensures
        css@ == dynamic_css_spec(*config),
{
    let text: &str = if config.use_custom_colors {
        config.custom_text.as_str()
    } else {
        "inherit"
    };
    let background: &str = if config.use_custom_colors {
        config.custom_background.as_str()
    } else {
        "transparent"
    };
    let mut css = String::from_str(".zpad-note textview, .zpad-note textview text { background-color: ");
    css.append(background);
    css.append("; color: ");
    css.append(text);
    css.append("; caret-color: ");
    css.append(text);
    css.append("; }\n");
    if config.use_custom_colors {
        css.append(".zpad-note scrolledwindow { background-color: ");
        css.append(background);
        css.append("; }\n");
    }
    if !config.font_from_theme && !config.font_family.as_str().is_empty() {
        push_font_rule(&mut css, config.font_family.as_str());
    }
    css
}

proof fn lemma_words_from_nonempty(t: Seq<char>, cur: Seq<char>, acc: Seq<Seq<char>>)
    requires
        forall|i: int| 0 <= i < acc.len() ==> #[trigger] acc[i].len() > 0,
    ensures
        forall|i: int|
            0 <= i < words_from(t, cur, acc).len() ==> #[trigger] words_from(t, cur, acc)[i].len()
                > 0,
    decreases t.len(),
{
    let flushed = if cur.len() > 0 {
        acc.push(cur)
    } else {
        acc
    };
    assert forall|i: int| 0 <= i < flushed.len() implies #[trigger] flushed[i].len() > 0 by {
        if i < acc.len() {
            assert(flushed[i] == acc[i]);
        }
    }
    if t.len() == 0 {
        assert(words_from(t, cur, acc) == flushed);
    } else if is_space(t[0]) {
        lemma_words_from_nonempty(t.drop_first(), seq![], flushed);
        assert(words_from(t, cur, acc) == words_from(t.drop_first(), seq![], flushed));
    } else {
        lemma_words_from_nonempty(t.drop_first(), cur.push(t[0]), acc);
        assert(words_from(t, cur, acc) == words_from(t.drop_first(), cur.push(t[0]), acc));
    }
}

proof fn lemma_join_nonempty(parts: Seq<Seq<char>>, sep: Seq<char>)
    requires
        parts.len() > 0,
        parts[0].len() > 0,
    ensures
        join_with(parts, sep).len() > 0,
    decreases parts.len(),
{
    if parts.len() > 1 {
        assert(parts.drop_last()[0] == parts[0]);
        lemma_join_nonempty(parts.drop_last(), sep);
    }
}

/// Law: the font rule of the stylesheet for a font description. When the
/// font is not the theme's and the description has words, the stylesheet
/// ends with the rule. A last word made of decimal digits is the size in
/// points, and the words before it, joined by single spaces, are the
/// family (no rule when the size is the only word). Otherwise every word,
/// the last one included, belongs to the family, and there is no size.
pub proof fn lemma_font_rule(c: Config)
    ensures
        ({
            let css = dynamic_css_spec(c);
            let parts = words(c.font_family@);
            let rule = font_rule(parts);
            &&& !c.font_from_theme && c.font_family@.len() > 0 ==> css.len() >= rule.len()
                && css.skip(css.len() - rule.len()) == rule
            &&& parts.len() > 0 && !all_digits(parts.last()) ==> rule
                == ".zpad-note textview { font-family: \""@ + join_with(parts, " "@) + "\"; }\n"@
            &&& parts.len() > 1 && all_digits(parts.last()) ==> rule
                == ".zpad-note textview { font-family: \""@ + join_with(parts.drop_last(), " "@)
                + "\"; font-size: "@ + parts.last() + "pt; }\n"@
            &&& parts.len() <= 1 && (parts.len() == 0 || all_digits(parts.last())) ==> rule.len()
                == 0
        }),
{
    reveal_strlit(" ");
    let parts = words(c.font_family@);
    lemma_words_from_nonempty(c.font_family@, seq![], seq![]);
    if parts.len() > 0 {
        assert(parts[0].len() > 0);
        lemma_join_nonempty(parts, seq![' ']);
        if parts.len() > 1 {
            assert(parts.drop_last()[0] == parts[0]);
            lemma_join_nonempty(parts.drop_last(), seq![' ']);
        }
    }
    assert(" "@ =~= seq![' ']);
    let css = dynamic_css_spec(c);
    let rule = font_rule(parts);
    if !c.font_from_theme && c.font_family@.len() > 0 {
        assert(css.skip(css.len() - rule.len()) =~= rule);
    }
    reveal_strlit("\"; }\n");
    reveal_strlit("\";");
    reveal_strlit(" }\n");
    reveal_strlit("\"; font-size: ");
    reveal_strlit(" font-size: ");
    reveal_strlit("pt; }\n");
    reveal_strlit("pt;");
    if parts.len() > 0 && !all_digits(parts.last()) {
        assert(rule =~= ".zpad-note textview { font-family: \""@ + join_with(parts, " "@)
            + "\"; }\n"@);
    }
    if parts.len() > 1 && all_digits(parts.last()) {
        assert(rule =~= ".zpad-note textview { font-family: \""@ + join_with(parts.drop_last(), " "@)
            + "\"; font-size: "@ + parts.last() + "pt; }\n"@);
    }
    if parts.len() <= 1 && (parts.len() == 0 || all_digits(parts.last())) {
        assert(rule.len() == 0);
    }
}

/// The XDG autostart entry that starts `exe` after login, `delay` seconds
/// late for both GNOME and KDE.
pub open spec fn autostart_entry_spec(exe: Seq<char>, delay: u32) -> Seq<char> {
    "[Desktop Entry]\nType=Application\nName=zPad\nIcon=zpad\nExec="@ + exe
        + "\nTerminal=false\nNoDisplay=true\nX-GNOME-Autostart-delay="@ + decimal(delay as nat)
        + "\nX-KDE-autostart-delay="@ + decimal(delay as nat) + "\n"@
}

/// The contents of `zpad.desktop` in the autostart directory.
pub fn autostart_entry(exe: &str, delay: u32) -> (entry: String)
    ensures
        entry@ == autostart_entry_spec(exe@, delay),
{
    let mut entry = String::from_str("[Desktop Entry]\nType=Application\nName=zPad\nIcon=zpad\nExec=");
    entry.append(exe);
    entry.append("\nTerminal=false\nNoDisplay=true\nX-GNOME-Autostart-delay=");
    push_decimal(&mut entry, delay as u64);
    entry.append("\nX-KDE-autostart-delay=");
    push_decimal(&mut entry, delay as u64);
    entry.append("\n");
    entry
}

} // verus!
