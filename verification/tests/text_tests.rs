use harpoon::fuzzy::{fuzzy_match, fuzzy_match_indices, match_ranges, lower_by_char, chars_of, char_utf8_width};
use harpoon::text::{build_hint_line, build_hint_string, build_wide_hints, build_medium_hints, build_narrow_hints, decimal_string};
use harpoon::paths::{
    data_dir, timestamps_file, log_file, bookmarks_file, load_timestamps_command, worker_load_command,
    load_bookmarks_command, save_command, log_line, log_command, focus_message,
};

#[test]
fn fuzzy_match_in_order() {
    assert!(fuzzy_match("abc", "aXbXc"));
    assert!(fuzzy_match("tab", "tab | title"));
    assert!(fuzzy_match("", "anything"));
    assert!(fuzzy_match("", ""));
}

#[test]
fn fuzzy_match_out_of_order_fails() {
    assert!(!fuzzy_match("acb", "abc"));
    assert!(!fuzzy_match("x", ""));
    assert!(!fuzzy_match("aa", "a"));
}

#[test]
fn fuzzy_match_is_case_sensitive_on_its_own() {
    assert!(!fuzzy_match("A", "a"));
}

#[test]
fn fuzzy_match_indices_lowercases_and_gives_byte_ranges() {
    assert_eq!(fuzzy_match_indices("AB", "xaYb"), vec![(1, 2), (3, 4)]);
    assert_eq!(fuzzy_match_indices("ab", "XAB"), vec![(1, 2), (2, 3)]);
}

#[test]
fn fuzzy_match_indices_multibyte() {
    assert_eq!(fuzzy_match_indices("é", "aé"), vec![(1, 3)]);
    assert_eq!(fuzzy_match_indices("b", "€b"), vec![(3, 4)]);
}

#[test]
fn fuzzy_match_indices_partial_when_haystack_runs_out() {
    assert_eq!(fuzzy_match_indices("az", "ab"), vec![(0, 1)]);
    assert_eq!(fuzzy_match_indices("ba", "ab"), vec![(1, 2)]);
    assert_eq!(fuzzy_match_indices("x", "ab"), Vec::<(usize, usize)>::new());
}

#[test]
fn match_ranges_give_the_spans_of_matched_characters() {
    let spans = vec![(0, 1), (1, 2), (2, 3)];
    assert_eq!(match_ranges("ac", &vec!['a', 'b', 'c'], &spans), vec![(0, 1), (2, 3)]);
    assert_eq!(match_ranges("", &vec!['a', 'b', 'c'], &spans), Vec::<(usize, usize)>::new());
    assert_eq!(match_ranges("b", &vec!['k', 'b'], &vec![(0, 3), (3, 4)]), vec![(3, 4)]);
}

#[test]
fn lowering_by_character_keeps_source_byte_ranges() {
    assert_eq!(lower_by_char("\u{212A}B"), (vec!['k', 'b'], vec![(0, 3), (3, 4)]));
    assert_eq!(lower_by_char(""), (vec![], vec![]));
}

#[test]
fn highlights_are_ranges_of_the_label_itself() {
    assert_eq!(fuzzy_match_indices("b", "\u{212A}b"), vec![(3, 4)]);
    assert_eq!(fuzzy_match_indices("k", "\u{212A}"), vec![(0, 3)]);
    assert_eq!(fuzzy_match_indices("K", "x\u{212A}"), vec![(1, 4)]);
}

#[test]
fn chars_and_widths() {
    assert_eq!(chars_of("aé€😀"), vec!['a', 'é', '€', '😀']);
    assert_eq!(char_utf8_width('a'), 1);
    assert_eq!(char_utf8_width('é'), 2);
    assert_eq!(char_utf8_width('€'), 3);
    assert_eq!(char_utf8_width('😀'), 4);
}

#[test]
fn hint_lines_by_width() {
    let wide = build_hint_line(80);
    assert_eq!(wide.0, "<a> add pane, <A> add all, <d> delete, <j/k> navigate, <Enter> focus, <Esc> close");
    assert_eq!(wide.1, vec![(0, 3), (14, 17), (27, 30), (39, 44), (55, 62), (70, 75)]);
    let medium = build_hint_line(76);
    assert_eq!(medium.0, "<a> add pane, <A> add all, <d> delete, <j/k> navigate, <Enter> focus, <Esc> close");
    let medium = build_hint_line(75);
    assert_eq!(medium.0, "<a> add, <A> all, <d> del, <j/k> nav, <Enter> go, <Esc> quit");
    assert_eq!(medium.1, vec![(0, 3), (9, 12), (18, 21), (27, 32), (38, 45), (50, 55)]);
    assert_eq!(build_hint_line(51).0, "<a> add, <A> all, <d> del, <j/k> nav, <Enter> go, <Esc> quit");
    let narrow = build_hint_line(50);
    assert_eq!(narrow.0, "<a> add <d> del <Enter> go <Esc>");
    assert_eq!(narrow.1, vec![(0, 3), (8, 11), (16, 23), (27, 32)]);
    assert_eq!(build_hint_line(0), narrow);
}

#[test]
fn hint_builders() {
    assert_eq!(build_wide_hints(), build_hint_line(100));
    assert_eq!(build_medium_hints(), build_hint_line(60));
    assert_eq!(build_narrow_hints(), build_hint_line(10));
}

#[test]
fn hint_string_with_multibyte_parts() {
    let (s, r) = build_hint_string(&[("é", "x"), ("k", "")], "|");
    assert_eq!(s, "éx|k");
    assert_eq!(r, vec![(0, 2), (4, 5)]);
    let (s, r) = build_hint_string(&[], ", ");
    assert_eq!(s, "");
    assert!(r.is_empty());
}

#[test]
fn decimals() {
    assert_eq!(decimal_string(0), "0");
    assert_eq!(decimal_string(7), "7");
    assert_eq!(decimal_string(1234), "1234");
    assert_eq!(decimal_string(u64::MAX), "18446744073709551615");
}

#[test]
fn file_paths() {
    assert_eq!(data_dir(), "${XDG_DATA_HOME:-$HOME/.local/share}/zellij-harpoon");
    assert_eq!(timestamps_file("main"), "${XDG_DATA_HOME:-$HOME/.local/share}/zellij-harpoon/main-timestamps.json");
    assert_eq!(log_file("main"), "${XDG_DATA_HOME:-$HOME/.local/share}/zellij-harpoon/main-debug.log");
    assert_eq!(bookmarks_file("main"), "${XDG_DATA_HOME:-$HOME/.local/share}/zellij-harpoon/main.json");
}

#[test]
fn shell_commands() {
    assert_eq!(
        load_timestamps_command("s"),
        "cat ${XDG_DATA_HOME:-$HOME/.local/share}/zellij-harpoon/s-timestamps.json 2>/dev/null || echo '{\"entries\":[]}'"
    );
    assert_eq!(
        worker_load_command("s"),
        "cat ${XDG_DATA_HOME:-$HOME/.local/share}/zellij-harpoon/s-timestamps.json 2>/dev/null || echo '{}'"
    );
    assert_eq!(
        load_bookmarks_command("s"),
        "cat ${XDG_DATA_HOME:-$HOME/.local/share}/zellij-harpoon/s.json 2>/dev/null || echo '[]'"
    );
    assert_eq!(
        save_command("/p"),
        "mkdir -p ${XDG_DATA_HOME:-$HOME/.local/share}/zellij-harpoon && printf '%s' \"$1\" > /p"
    );
    assert_eq!(log_line(42, "hi"), "[42] hi");
    assert_eq!(
        log_command("s", "[1] x"),
        "mkdir -p ${XDG_DATA_HOME:-$HOME/.local/share}/zellij-harpoon && echo '[1] x' >> ${XDG_DATA_HOME:-$HOME/.local/share}/zellij-harpoon/s-debug.log"
    );
    assert_eq!(
        focus_message(3, "tab", "vim", 99),
        "focus changed: pane_id=3 tab=\"tab\" title=\"vim\" ts=99"
    );
}
