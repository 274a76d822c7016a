use shell::command::Command;

fn strings(v: &[&str]) -> Vec<String> {
    v.iter().map(|s| s.to_string()).collect()
}

#[test]
fn test_input_process() {
    let input = "this is 'block name ' white";
    assert_eq!(
        Command::input_process(input),
        vec![
            "this".to_string(),
            "is".to_string(),
            "block name ".to_string(),
            "white".to_string()
        ]
    );
}

#[test]
fn test_input_process_on_dauble_quote1() {
    let input = "\"hello\"world";
    assert_eq!(Command::input_process(input), vec!["helloworld".to_string()]);
}

#[test]
fn test_input_process_on_dauble_quote2() {
    let input = "hello\"world\"";
    assert_eq!(Command::input_process(input), vec!["helloworld".to_string()]);
}

#[test]
fn test_input_process_on_single_quote1() {
    let input = "\'hello\'world";
    assert_eq!(Command::input_process(input), vec!["helloworld".to_string()]);
}

#[test]
fn test_input_process_on_single_quote2() {
    let input = "hello\'world\'";
    assert_eq!(Command::input_process(input), vec!["helloworld".to_string()]);
}

#[test]
fn test_input_process_on_singlequote_inside_daublequote() {
    let input = "\"shell\"  \"example's\"  test\"\"script";
    assert_eq!(
        Command::input_process(input),
        vec![
            "shell".to_string(),
            "example's".to_string(),
            "testscript".to_string()
        ]
    );
}

#[test]
fn clean_words_come_back_unchanged() {
    assert_eq!(Command::input_process("ls -la /tmp"), strings(&["ls", "-la", "/tmp"]));
    assert_eq!(Command::input_process("a"), strings(&["a"]));
}

#[test]
fn space_runs_collapse() {
    assert_eq!(Command::input_process("   a    b  c   "), strings(&["a", "b", "c"]));
    assert_eq!(Command::input_process("     "), Vec::<String>::new());
    assert_eq!(Command::input_process(""), Vec::<String>::new());
}

#[test]
fn single_quotes_keep_everything() {
    assert_eq!(
        Command::input_process("'a  \"b\" \\n c'"),
        strings(&["a  \"b\" \\n c"])
    );
    assert_eq!(Command::input_process("''"), Vec::<String>::new());
}

#[test]
fn double_quote_escapes() {
    assert_eq!(Command::input_process("\"a\\\"b\""), strings(&["a\"b"]));
    assert_eq!(Command::input_process("\"a\\\\b\""), strings(&["a\\b"]));
    assert_eq!(Command::input_process("\"a\\nb\""), strings(&["a\\nb"]));
    assert_eq!(Command::input_process("\"x y\" 'z'"), strings(&["x y", "z"]));
}

#[test]
fn backslash_outside_quotes_escapes_anything() {
    assert_eq!(Command::input_process("a\\ b c"), strings(&["a b", "c"]));
    assert_eq!(Command::input_process("\\'x\\\""), strings(&["'x\""]));
    assert_eq!(Command::input_process("\\n"), strings(&["n"]));
    assert_eq!(Command::input_process("a\\"), strings(&["a"]));
}

#[test]
fn adjacent_segments_merge() {
    assert_eq!(Command::input_process("\"hello\"world"), strings(&["helloworld"]));
    assert_eq!(Command::input_process("a'b c'\"d\"e"), strings(&["ab cde"]));
}

#[test]
fn unterminated_quote_keeps_what_was_read() {
    assert_eq!(Command::input_process("echo 'abc def"), strings(&["echo", "abc def"]));
    assert_eq!(Command::input_process("\"x "), strings(&["x "]));
}
