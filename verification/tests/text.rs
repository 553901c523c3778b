use cosmic_edit::text::chars_of;
use cosmic_edit::text::clip_lines;
use cosmic_edit::text::count_newlines;
use cosmic_edit::text::prefix_of;
use cosmic_edit::text::trim_one_style;
use cosmic_edit::text::trim_text;
use cosmic_edit::text::CosmicText;
use cosmic_text::Attrs;
use cosmic_text::AttrsOwned;
use cosmic_text::Color;

fn plain() -> AttrsOwned {
    AttrsOwned::new(Attrs::new())
}

fn red() -> AttrsOwned {
    AttrsOwned::new(Attrs::new().color(Color::rgb(255, 0, 0)))
}

fn one(s: &str) -> CosmicText {
    CosmicText::OneStyle(String::from(s))
}

fn multi(lines: Vec<Vec<(&str, AttrsOwned)>>) -> CosmicText {
    CosmicText::MultiStyle(
        lines
            .into_iter()
            .map(|l| l.into_iter().map(|(s, a)| (String::from(s), a)).collect())
            .collect(),
    )
}

#[test]
fn default_text_is_empty_one_style() {
    assert_eq!(CosmicText::default(), one(""));
}

#[test]
fn chars_of_a_string() {
    assert_eq!(chars_of("a●b"), vec!['a', '●', 'b']);
}

#[test]
fn prefix_counts_characters_not_bytes() {
    assert_eq!(prefix_of("●●●", 2), "●●");
    assert_eq!(prefix_of("ab", 5), "ab");
    assert_eq!(prefix_of("ab", 0), "");
}

#[test]
fn count_newlines_counts() {
    assert_eq!(count_newlines(""), 0);
    assert_eq!(count_newlines("a\nb\n\n"), 3);
}

#[test]
fn clip_lines_keeps_the_break_it_cuts_at() {
    assert_eq!(clip_lines(String::from("a\nb\nc"), 1), "a\n");
    assert_eq!(clip_lines(String::from("a\nb\nc"), 2), "a\nb\n");
    assert_eq!(clip_lines(String::from("a\nb\nc"), 3), "a\nb\nc");
    assert_eq!(clip_lines(String::from("a\nb\nc"), 0), "a\nb\nc");
    assert_eq!(clip_lines(String::from("\n\n"), 1), "\n");
}

#[test]
fn trim_without_limits_changes_nothing() {
    assert_eq!(trim_text(one("hello\nworld"), 0, 0), one("hello\nworld"));
    let m = multi(vec![vec![("ab", plain()), ("cd", red())], vec![]]);
    assert_eq!(trim_text(m.clone(), 0, 0), m);
}

#[test]
fn trim_one_style_to_one_char() {
    assert_eq!(trim_text(one("AB"), 1, 0), one("A"));
}

#[test]
fn trim_one_style_is_utf8_safe() {
    assert_eq!(trim_text(one("●●●"), 2, 0), one("●●"));
}

#[test]
fn trim_one_style_chars_then_lines() {
    assert_eq!(trim_text(one("ab\ncd\nef"), 7, 1), one("ab\n"));
    assert_eq!(trim_text(one("ab\ncd\nef"), 4, 2), one("ab\nc"));
    assert_eq!(trim_text(one("ab\ncd\nef"), 0, 2), one("ab\ncd\n"));
}

#[test]
fn append_then_truncate_equals_truncate_then_append() {
    // shorter than the limit: both ways give the text with the character
    assert_eq!(trim_text(one("abz"), 5, 0), one("abz"));
    let mut short = prefix_of("ab", 4);
    short.push('z');
    assert_eq!(one(&short), one("abz"));
    // at the limit with another character in the last place the two differ
    assert_eq!(trim_text(one("abz"), 1, 0), one("a"));
    let mut other = prefix_of("ab", 0);
    other.push('z');
    assert_eq!(other, "z");
}

#[test]
fn trim_multi_style_counts_one_per_line() {
    let m = multi(vec![vec![("abc", plain())], vec![("def", red())]]);
    // entering line 1 costs one, "abc" three, entering line 2 one more: five
    // are spent, so at a limit of 7 two characters of the second line remain
    assert_eq!(
        trim_text(m.clone(), 7, 0),
        multi(vec![vec![("abc", plain())], vec![("de", red())]])
    );
    // at a limit of 5 the second line is entered with the budget spent
    assert_eq!(trim_text(m.clone(), 5, 0), multi(vec![vec![("abc", plain())]]));
    // at a limit of 1 even the first line is dropped
    assert_eq!(trim_text(m, 1, 0), multi(vec![]));
}

#[test]
fn trim_multi_style_truncates_run_by_run() {
    let m = multi(vec![vec![("ab", plain()), ("cd", red()), ("ef", plain())]]);
    assert_eq!(
        trim_text(m.clone(), 4, 0),
        multi(vec![vec![("ab", plain()), ("c", red())]])
    );
    assert_eq!(trim_text(m, 3, 0), multi(vec![vec![("ab", plain())]]));
}

#[test]
fn trim_multi_style_line_limit_counts_the_line_entered() {
    let m = multi(vec![vec![("a", plain())], vec![("b", plain())], vec![("c", plain())]]);
    assert_eq!(trim_text(m.clone(), 0, 3), multi(vec![vec![("a", plain())], vec![("b", plain())]]));
    assert_eq!(trim_text(m.clone(), 0, 2), multi(vec![vec![("a", plain())]]));
    assert_eq!(trim_text(m, 0, 1), multi(vec![]));
}

#[test]
fn trim_multi_style_counts_breaks_inside_runs() {
    let m = multi(vec![vec![("a\nb", plain())], vec![("c", plain())]]);
    // the break inside the first run is the second line: the next line is the third
    assert_eq!(trim_text(m.clone(), 0, 3), multi(vec![vec![("a\nb", plain())]]));
    assert_eq!(trim_text(m.clone(), 0, 4), m);
}

#[test]
fn trim_multi_style_keeps_attributes() {
    let m = multi(vec![vec![("ab", red())]]);
    match trim_text(m, 2, 0) {
        CosmicText::MultiStyle(lines) => {
            assert_eq!(lines.len(), 1);
            assert_eq!(lines[0][0].0, "a");
            assert_eq!(lines[0][0].1, red());
        }
        _ => panic!("a multi-style text stays multi-style"),
    }
}

#[test]
fn trim_one_style_string() {
    assert_eq!(trim_one_style(String::from("AB"), 1, 0), "A");
    assert_eq!(trim_one_style(String::from("ab\ncd\nef"), 7, 1), "ab\n");
    assert_eq!(trim_one_style(String::from("ab"), 0, 0), "ab");
}
