use rust_cmd_line::CmdLineParse;

fn to_args(xs: &[&str]) -> Vec<String> {
    xs.iter().map(|s| s.to_string()).collect()
}

#[test]
fn cl_args() {
    let mock_args = to_args(&["prog", "/P", ".", "/p", "rs,txt", "/s"]);
    let mut parser = CmdLineParse::new();
    parser.parse(&mock_args);
    for arg in &mock_args {
        let chars: Vec<char> = arg.chars().collect();
        if chars.len() >= 2 && chars[0] == '/' {
            assert!(parser.contains_option(chars[1]));
        }
    }
}

#[test]
fn patterns_in_order() {
    let mut parser = CmdLineParse::new();
    parser.parse(&to_args(&["prog", "/p", "rs,txt"]));
    assert_eq!(parser.patterns(), &vec!["rs".to_string(), "txt".to_string()]);
}

#[test]
fn add_pattern_dedup() {
    let mut parser = CmdLineParse::new();
    parser.add_pattern("rs");
    parser.add_pattern("rs");
    assert_eq!(parser.patterns(), &vec!["rs".to_string()]);
}

#[test]
fn explicit_value_overrides_default() {
    let mut parser = CmdLineParse::new();
    parser.default_options();
    parser.parse(&to_args(&["prog", "/P", "C:/github/foo"]));
    assert_eq!(parser.path(), "C:/github/foo");
}

#[test]
fn path_fallback_is_current_dir() {
    let parser = CmdLineParse::new();
    assert_eq!(parser.path(), ".");
}

#[test]
fn get_regex_fallback_matches_all() {
    let parser = CmdLineParse::new();
    assert_eq!(parser.get_regex(), ".");
}

#[test]
fn abs_path_cleans_resolved_path() {
    let parser = CmdLineParse::new();
    let resolved = Ok("\\\\?\\C:\\github\\foo".to_string());
    assert_eq!(parser.abs_path(&resolved), "C:/github/foo");
}

#[test]
fn abs_path_keeps_plain_path() {
    let parser = CmdLineParse::new();
    let resolved = Ok("/home/user/project".to_string());
    assert_eq!(parser.abs_path(&resolved), "/home/user/project");
}

#[test]
fn abs_path_returns_error_text() {
    let parser = CmdLineParse::new();
    let resolved = Err("No such file or directory (os error 2)".to_string());
    assert_eq!(parser.abs_path(&resolved), "No such file or directory (os error 2)");
}

#[test]
fn option_round_trip() {
    let mut parser = CmdLineParse::new();
    parser.add_option('x', "false");
    let stored = parser
        .options()
        .iter()
        .find(|(k, _)| *k == 'x')
        .map(|(_, v)| v.clone());
    assert_eq!(stored, Some("false".to_string()));
    assert_eq!(parser.value('x'), "false");
    parser.add_option('x', "true");
    let stored = parser
        .options()
        .iter()
        .find(|(k, _)| *k == 'x')
        .map(|(_, v)| v.clone());
    assert_eq!(stored, Some("true".to_string()));
    assert_eq!(parser.value('x'), "true");
    assert_eq!(parser.options().len(), 1);
}

#[test]
fn flag_without_value_stores_true() {
    let mut parser = CmdLineParse::new();
    parser.parse(&to_args(&["prog", "/s"]));
    assert_eq!(parser.value('s'), "true");
}

#[test]
fn flag_followed_by_flag_stores_true() {
    let mut parser = CmdLineParse::new();
    parser.parse(&to_args(&["prog", "/s", "/r", "abc"]));
    assert_eq!(parser.value('s'), "true");
    assert_eq!(parser.value('r'), "abc");
    assert_eq!(parser.get_regex(), "abc");
}

#[test]
fn short_tokens_are_not_options() {
    let mut parser = CmdLineParse::new();
    parser.parse(&to_args(&["prog", "", "/", "x"]));
    assert!(parser.options().is_empty());
    assert!(!parser.contains_option('/'));
}

#[test]
fn option_key_is_first_char_after_prefix() {
    let mut parser = CmdLineParse::new();
    parser.parse(&to_args(&["prog", "/Pabc", "val"]));
    assert!(parser.contains_option('P'));
    assert_eq!(parser.value('P'), "val");
    assert!(!parser.contains_option('a'));
}

#[test]
fn empty_segments_kept_and_deduplicated() {
    let mut parser = CmdLineParse::new();
    parser.parse(&to_args(&["prog", "/p", ",rs,,txt,"]));
    assert_eq!(
        parser.patterns(),
        &vec!["".to_string(), "rs".to_string(), "txt".to_string()]
    );
}

#[test]
fn later_occurrence_overwrites_earlier() {
    let mut parser = CmdLineParse::new();
    parser.parse(&to_args(&["prog", "/r", "a", "/r", "b"]));
    assert_eq!(parser.get_regex(), "b");
}

#[test]
fn value_token_starting_with_prefix_is_an_option() {
    let mut parser = CmdLineParse::new();
    parser.parse(&to_args(&["prog", "/P", "/x"]));
    assert_eq!(parser.value('P'), "true");
    assert!(parser.contains_option('x'));
    assert_eq!(parser.value('x'), "true");
}

#[test]
fn parse_twice_with_same_input_is_stable() {
    let args = to_args(&["prog", "/P", ".", "/p", "rs,txt"]);
    let mut parser = CmdLineParse::new();
    parser.parse(&args);
    let options_once: Vec<(char, String)> = parser.options().clone();
    let patterns_once: Vec<String> = parser.patterns().clone();
    parser.parse(&args);
    assert_eq!(parser.options(), &options_once);
    assert_eq!(parser.patterns(), &patterns_once);
}

#[test]
fn default_options_seed_the_baseline() {
    let mut parser = CmdLineParse::new();
    parser.default_options();
    assert_eq!(parser.path(), ".");
    assert_eq!(parser.get_regex(), ".");
    assert_eq!(parser.value('s'), "true");
    assert_eq!(parser.value('H'), "true");
}

#[test]
fn help_text_and_replace() {
    let mut parser = CmdLineParse::new();
    assert_eq!(
        parser.help(),
        "\n  Help:\n  Options: /P . /p \"rs,txt\" /s /r \"abc\" /H /h"
    );
    parser.replace_help("usage: tool [options]");
    assert_eq!(parser.help(), "usage: tool [options]");
}

#[test]
fn set_path_and_set_regex() {
    let mut parser = CmdLineParse::new();
    parser.set_path("/tmp/work");
    parser.set_regex("ab+");
    assert_eq!(parser.path(), "/tmp/work");
    assert_eq!(parser.get_regex(), "ab+");
}

#[test]
fn stray_value_tokens_are_ignored() {
    let mut parser = CmdLineParse::new();
    parser.parse(&to_args(&["prog", "loose", "/s", "tight", "extra"]));
    assert_eq!(parser.options().len(), 1);
    assert_eq!(parser.value('s'), "tight");
    assert!(parser.patterns().is_empty());
}

#[test]
fn add_pattern_keeps_order_of_first_occurrence() {
    let mut parser = CmdLineParse::new();
    parser.add_pattern("txt");
    parser.parse(&to_args(&["prog", "/p", "rs,txt,md"]));
    assert_eq!(
        parser.patterns(),
        &vec!["txt".to_string(), "rs".to_string(), "md".to_string()]
    );
}
