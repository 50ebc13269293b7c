use clap_complete_engine::cursor::resolve;
use clap_complete_engine::engine::recurse_completions;
use clap_complete_engine::model::{ArgKind, ArgSpec, ArgState, CommandSpec, ParseResult};
use clap_complete_engine::rank::{filter_prefixed, rank, sort_candidates};
use clap_complete_engine::request::complete_request;
use clap_complete_engine::suggest::{my_custom_suggest, DemoSuggester, ValueEntry, ValueTable};
use clap_complete_engine::text::{has_prefix, lex_less, same_text, starts_like_flag};

fn strings(v: &[&str]) -> Vec<String> {
    v.iter().map(|s| s.to_string()).collect()
}

fn flag(id: &str, long: Option<&str>, short: Option<char>, kind: ArgKind) -> ArgSpec {
    ArgSpec { id: id.to_string(), long_name: long.map(|l| l.to_string()), short_name: short, kind }
}

fn positional(id: &str) -> ArgSpec {
    ArgSpec { id: id.to_string(), long_name: None, short_name: None, kind: ArgKind::Positional }
}

fn node(name: &str, arguments: Vec<ArgSpec>, subcommands: Vec<CommandSpec>) -> CommandSpec {
    CommandSpec { name: name.to_string(), arguments, subcommands }
}

fn given(id: &str, values: &[&str]) -> ArgState {
    ArgState { id: id.to_string(), explicitly_set: true, raw_values: strings(values) }
}

fn parse(args: Vec<ArgState>) -> ParseResult {
    ParseResult { args, subcommand: None }
}

fn parse_into(args: Vec<ArgState>, name: &str, sub: ParseResult) -> ParseResult {
    ParseResult { args, subcommand: Some((name.to_string(), Box::new(sub))) }
}

fn complete_node() -> CommandSpec {
    node(
        "complete",
        vec![
            flag("position", Some("position"), None, ArgKind::ValueFlag),
            flag("raw", Some("raw"), None, ArgKind::ValueFlag),
            positional("cmd"),
        ],
        vec![],
    )
}

fn frobnicate_node() -> CommandSpec {
    node(
        "frobnicate",
        vec![
            flag("recursive", Some("recursive"), Some('r'), ArgKind::BooleanFlag),
            flag("update", Some("update"), Some('u'), ArgKind::ValueFlag),
            positional("path"),
            positional("path2"),
        ],
        vec![],
    )
}

fn tool() -> CommandSpec {
    node(
        "tool",
        vec![
            flag("long", Some("long"), None, ArgKind::BooleanFlag),
            flag("short", None, Some('s'), ArgKind::BooleanFlag),
            flag("with_val", Some("with-val"), None, ArgKind::ValueFlag),
            positional("ctx"),
        ],
        vec![complete_node(), frobnicate_node()],
    )
}

fn tool_with_two_subcommands() -> CommandSpec {
    node("tool", vec![], vec![complete_node(), frobnicate_node()])
}

#[test]
fn scenario_flag_prefix_completes_to_position() {
    let spec = tool_with_two_subcommands();
    let p = parse_into(vec![], "complete", parse(vec![]));
    let tokens = strings(&["tool", "--pos"]);
    let r = complete_request(None, None, &tokens, &spec, &p, &DemoSuggester);
    assert_eq!(r, strings(&["--position"]));
}

#[test]
fn scenario_pending_value_gives_only_suggester_values() {
    let spec = tool_with_two_subcommands();
    let p = parse_into(vec![], "complete", parse(vec![]));
    let table = ValueTable {
        entries: vec![ValueEntry {
            subcommand: "complete".to_string(),
            arg_id: "position".to_string(),
            values: strings(&["0", "1", "2"]),
        }],
    };
    let tokens = strings(&["tool", "complete", "--position", ""]);
    let r = complete_request(None, None, &tokens, &spec, &p, &table);
    assert_eq!(r, strings(&["0", "1", "2"]));
}

#[test]
fn scenario_no_tokens_lists_subcommands() {
    let spec = tool_with_two_subcommands();
    let tokens = strings(&["tool", ""]);
    let r = complete_request(None, None, &tokens, &spec, &parse(vec![]), &DemoSuggester);
    assert_eq!(r, strings(&["complete", "frobnicate"]));
}

#[test]
fn scenario_retyped_positional_is_suggested_again() {
    let spec = node("tool", vec![positional("path")], vec![complete_node()]);
    let p = parse(vec![given("path", &["a.txt"])]);
    let tokens = strings(&["tool", "a"]);
    let r = complete_request(None, None, &tokens, &spec, &p, &DemoSuggester);
    assert_eq!(
        r,
        strings(&[
            "a/0-tool-path",
            "a/1-tool-path",
            "a/2-tool-path",
            "a/3-tool-path",
            "a/4-tool-path",
        ])
    );
}

#[test]
fn scenario_flag_like_token_skips_positional_values() {
    let spec = node(
        "tool",
        vec![flag("verbose", Some("verbose"), Some('v'), ArgKind::BooleanFlag), positional("path")],
        vec![complete_node()],
    );
    let tokens = strings(&["tool", "-"]);
    let r = complete_request(None, None, &tokens, &spec, &parse(vec![]), &DemoSuggester);
    assert_eq!(r, strings(&["--verbose", "-v"]));
}

#[test]
fn every_candidate_starts_with_the_completed_token() {
    let spec = tool();
    let p = parse_into(vec![given("ctx", &["c"])], "frobnicate", parse(vec![]));
    let tokens = strings(&["tool", "c", "frobnicate", "--u"]);
    let r = complete_request(None, None, &tokens, &spec, &p, &DemoSuggester);
    assert_eq!(r, strings(&["--update"]));
    for c in &r {
        assert!(c.starts_with("--u"));
    }
}

#[test]
fn words_come_before_flags() {
    let r = rank(strings(&["--b", "a", "-c", "b", "--a", "ab"]), "");
    assert_eq!(r, strings(&["a", "ab", "b", "--a", "--b", "-c"]));
}

#[test]
fn ranking_keeps_duplicates() {
    let r = rank(strings(&["x", "-x", "x"]), "");
    assert_eq!(r, strings(&["x", "x", "-x"]));
}

#[test]
fn ranking_drops_candidates_without_the_prefix() {
    let r = rank(strings(&["ab", "b", "a", "-a", "abc"]), "a");
    assert_eq!(r, strings(&["a", "ab", "abc"]));
}

#[test]
fn sorting_orders_by_code_point() {
    let r = sort_candidates(strings(&["é", "z", "Z", "", "-"]));
    assert_eq!(r, strings(&["", "Z", "z", "é", "-"]));
}

#[test]
fn filtering_twice_equals_filtering_once() {
    let cands = strings(&["--pos", "--position", "-p", "--raw", "pos"]);
    let once = filter_prefixed(cands.clone(), "--pos");
    let twice = filter_prefixed(once.clone(), "--pos");
    assert_eq!(once, strings(&["--pos", "--position"]));
    assert_eq!(twice, once);
}

#[test]
fn empty_prefix_keeps_everything() {
    let cands = strings(&["b", "-a", "a"]);
    assert_eq!(filter_prefixed(cands.clone(), ""), cands);
}

#[test]
fn pending_value_blocks_flags_and_subcommands() {
    let spec = tool();
    let p = parse_into(vec![given("ctx", &["c"])], "frobnicate", parse(vec![]));
    let r = recurse_completions("--update", "", &spec, &p, &DemoSuggester);
    assert_eq!(
        r,
        strings(&[
            "/0-frobnicate-update",
            "/1-frobnicate-update",
            "/2-frobnicate-update",
            "/3-frobnicate-update",
            "/4-frobnicate-update",
        ])
    );
}

#[test]
fn pending_value_by_short_name() {
    let spec = frobnicate_node();
    let r = recurse_completions("-u", "x", &spec, &parse(vec![]), &DemoSuggester);
    assert_eq!(r.len(), 5);
    assert_eq!(r[0], "x/0-frobnicate-update");
}

#[test]
fn boolean_flag_before_cursor_is_not_pending() {
    let spec = frobnicate_node();
    let r = recurse_completions("-r", "", &spec, &parse(vec![]), &DemoSuggester);
    assert_eq!(
        r,
        strings(&[
            "--recursive",
            "-r",
            "--update",
            "-u",
            "/0-frobnicate-path",
            "/1-frobnicate-path",
            "/2-frobnicate-path",
            "/3-frobnicate-path",
            "/4-frobnicate-path",
        ])
    );
}

#[test]
fn given_flags_are_not_offered_again() {
    let spec = frobnicate_node();
    let p = parse(vec![given("recursive", &[]), given("path", &["p"]), given("path2", &["q"])]);
    let r = recurse_completions("q", "", &spec, &p, &DemoSuggester);
    assert_eq!(r, strings(&["--update", "-u"]));
}

#[test]
fn unfilled_positional_blocks_subcommands() {
    let spec = tool();
    let r = recurse_completions("tool", "", &spec, &parse(vec![]), &DemoSuggester);
    assert_eq!(
        r,
        strings(&[
            "--long",
            "-s",
            "--with-val",
            "/0-tool-ctx",
            "/1-tool-ctx",
            "/2-tool-ctx",
            "/3-tool-ctx",
            "/4-tool-ctx",
        ])
    );
}

#[test]
fn filled_positionals_let_subcommands_through() {
    let spec = tool();
    let p = parse(vec![given("ctx", &["c"])]);
    let r = recurse_completions("c", "", &spec, &p, &DemoSuggester);
    assert_eq!(r, strings(&["--long", "-s", "--with-val", "complete", "frobnicate"]));
}

#[test]
fn empty_completion_does_not_retrigger_a_filled_positional() {
    let spec = node("tool", vec![positional("path")], vec![complete_node()]);
    let p = parse(vec![given("path", &["a.txt"])]);
    let r = recurse_completions("a.txt", "", &spec, &p, &DemoSuggester);
    assert_eq!(r, strings(&["complete"]));
}

#[test]
fn unknown_subcommand_is_a_leaf_with_empty_parse() {
    let spec = tool();
    let p = parse_into(vec![given("ctx", &["c"])], "nope", parse(vec![]));
    let r = recurse_completions("nope", "", &spec, &p, &DemoSuggester);
    assert_eq!(r.len(), 8);
    assert_eq!(r[3], "/0-tool-ctx");
}

#[test]
fn tokens_none_gives_empty_pair() {
    let (prev, tc) = resolve(None, None, &vec![]);
    assert_eq!((prev.as_str(), tc.as_str()), ("", ""));
}

#[test]
fn tokens_one_is_the_completed_token() {
    let (prev, tc) = resolve(None, None, &strings(&["to"]));
    assert_eq!((prev.as_str(), tc.as_str()), ("", "to"));
}

#[test]
fn tokens_last_two_are_used() {
    let (prev, tc) = resolve(Some(3), None, &strings(&["tool", "frob", "--up"]));
    assert_eq!((prev.as_str(), tc.as_str()), ("frob", "--up"));
}

#[test]
fn raw_line_at_its_end() {
    let raw = "tool frobnicate --up";
    let (prev, tc) = resolve(Some(raw.len()), Some(raw), &vec![]);
    assert_eq!((prev.as_str(), tc.as_str()), ("frobnicate", "--up"));
}

#[test]
fn raw_line_with_cursor_mid_line() {
    let (prev, tc) = resolve(Some(9), Some("tool frob xyz"), &vec![]);
    assert_eq!((prev.as_str(), tc.as_str()), ("tool", "frob"));
}

#[test]
fn raw_line_cursor_after_space() {
    let (prev, tc) = resolve(Some(5), Some("tool frob"), &vec![]);
    assert_eq!((prev.as_str(), tc.as_str()), ("tool", ""));
}

#[test]
fn raw_line_past_its_end_falls_back() {
    let (prev, tc) = resolve(Some(50), Some("tool x"), &strings(&["tool", "x"]));
    assert_eq!((prev.as_str(), tc.as_str()), ("x", ""));
    let (prev, tc) = resolve(Some(50), Some("tool x"), &vec![]);
    assert_eq!((prev.as_str(), tc.as_str()), ("", ""));
}

#[test]
fn raw_line_without_space_falls_back() {
    let (prev, tc) = resolve(Some(4), Some("tool"), &strings(&["tool"]));
    assert_eq!((prev.as_str(), tc.as_str()), ("tool", ""));
}

#[test]
fn raw_line_off_char_boundary_falls_back() {
    let (prev, tc) = resolve(Some(6), Some("tool é"), &strings(&["a", "b"]));
    assert_eq!((prev.as_str(), tc.as_str()), ("b", ""));
}

#[test]
fn raw_line_with_multibyte_characters() {
    let raw = "tööl fé x";
    let (prev, tc) = resolve(Some(raw.len() - 2), Some(raw), &vec![]);
    assert_eq!((prev.as_str(), tc.as_str()), ("tööl", "fé"));
}

#[test]
fn request_from_raw_line() {
    let spec = tool();
    let p = parse_into(vec![given("ctx", &["c"])], "frobnicate", parse(vec![]));
    let raw = "tool c frobnicate --re";
    let r = complete_request(Some(raw.len()), Some(raw), &vec![], &spec, &p, &DemoSuggester);
    assert_eq!(r, strings(&["--recursive"]));
}

#[test]
fn demo_suggester_values() {
    assert_eq!(
        my_custom_suggest("frobnicate", "path", "a"),
        strings(&[
            "a/0-frobnicate-path",
            "a/1-frobnicate-path",
            "a/2-frobnicate-path",
            "a/3-frobnicate-path",
            "a/4-frobnicate-path",
        ])
    );
}

#[test]
fn value_table_without_entry_is_empty() {
    let spec = complete_node();
    let table = ValueTable { entries: vec![] };
    let r = recurse_completions("--raw", "", &spec, &parse(vec![]), &table);
    assert!(r.is_empty());
}

#[test]
fn text_helpers() {
    assert!(has_prefix("--position", "--pos"));
    assert!(!has_prefix("--pos", "--position"));
    assert!(has_prefix("x", ""));
    assert!(same_text("ab", "ab"));
    assert!(!same_text("ab", "abc"));
    assert!(starts_like_flag("-x"));
    assert!(!starts_like_flag(""));
    assert!(lex_less("a", "ab"));
    assert!(!lex_less("b", "ab"));
    assert!(!lex_less("a", "a"));
}
