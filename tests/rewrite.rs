use semifmt::{
    ends_with_line_break, format_source, format_with_tokens, is_lua_file_name, join_lines,
    rewrite_line, rewrite_lines, semicolon_count, split_lines, Action, Depths, FormatError,
    RewriteOptions, Token, TokenKind,
};

fn run(code: &str, array_mode: bool) -> String {
    format_source(code, &RewriteOptions { array_mode }).expect("tokenizes")
}

fn chars(s: &str) -> Vec<char> {
    s.chars().collect()
}

fn text(v: &[char]) -> String {
    v.iter().collect()
}

#[test]
fn top_level_semicolon_is_stripped() {
    assert_eq!(run("print(\"hi\");", false), "print(\"hi\")");
}

#[test]
fn table_item_semicolons_become_commas() {
    assert_eq!(run("local t = {\n  1;\n  2;\n}", false), "local t = {\n  1,\n  2,\n}");
}

#[test]
fn array_mode_keeps_table_semicolons() {
    let code = "local t = {\n  1;\n  2;\n}";
    assert_eq!(run(code, true), code);
}

#[test]
fn array_mode_still_strips_top_level() {
    assert_eq!(run("local t = {\n  1;\n}\nprint(t);\n", true), "local t = {\n  1;\n}\nprint(t)\n");
}

#[test]
fn function_body_inside_table_is_stripped() {
    assert_eq!(
        run("local t = { fn = function() foo(); end }", false),
        "local t = { fn = function() foo() end }"
    );
}

#[test]
fn semicolon_after_function_in_table_becomes_comma() {
    let code = "local t = {\n  f = function()\n    foo();\n  end;\n  2;\n}\n";
    let want = "local t = {\n  f = function()\n    foo()\n  end,\n  2,\n}\n";
    assert_eq!(run(code, false), want);
}

#[test]
fn multi_semicolon_line_drops_last_character() {
    let mut line = chars("a = 1; b = 2;");
    rewrite_line(&mut line, Action::Strip);
    assert_eq!(text(&line), "a = 1; b = 2");
}

#[test]
fn multi_semicolon_line_comma_replaces_last_character() {
    let mut line = chars("x; y;");
    rewrite_line(&mut line, Action::Comma);
    assert_eq!(text(&line), "x; y,");
}

#[test]
fn multi_semicolon_line_whole_pass() {
    // the second token finds a single semicolon left on the line
    assert_eq!(run("a = 1; b = 2;", false), "a = 1 b = 2");
}

#[test]
fn single_semicolon_is_replaced_in_place() {
    let mut line = chars("  1; -- one");
    rewrite_line(&mut line, Action::Comma);
    assert_eq!(text(&line), "  1, -- one");
    let mut line = chars("  1; -- one");
    rewrite_line(&mut line, Action::Strip);
    assert_eq!(text(&line), "  1 -- one");
}

#[test]
fn skip_leaves_line() {
    let mut line = chars("a; b;");
    rewrite_line(&mut line, Action::Skip);
    assert_eq!(text(&line), "a; b;");
}

#[test]
fn line_count_is_kept() {
    let code = "local a = 1;\nlocal t = {\n  1;\n  2;\n}\n\nprint(a);\n";
    let out = run(code, false);
    assert_eq!(out.lines().count(), code.lines().count());
}

#[test]
fn semicolon_free_text_is_unchanged() {
    let code = "local t = { 1, 2 }\n\nfunction f()\n  return t\nend\n";
    assert_eq!(run(code, false), code);
    let code = "print(1)";
    assert_eq!(run(code, false), code);
    assert_eq!(run("", false), "");
}

#[test]
fn trailing_newline_is_kept() {
    assert_eq!(run("a = 1;\n", false), "a = 1\n");
    assert_eq!(run("a = 1;", false), "a = 1");
    assert_eq!(run("a = 1;\nb = 2;", false), "a = 1\nb = 2");
}

#[test]
fn second_pass_changes_nothing() {
    let once = run("local t = {\n  1;\n  2;\n}\nprint(t);\n", false);
    assert_eq!(run(&once, false), once);
}

#[test]
fn crlf_lines_keep_their_breaks() {
    assert_eq!(run("a = 1;\r\nb = 2\r\n", false), "a = 1\r\nb = 2\r\n");
    assert_eq!(
        run("local t = {\r\n  1;\r\n}\nx = 1;", false),
        "local t = {\r\n  1,\r\n}\nx = 1"
    );
}

#[test]
fn crlf_text_without_semicolons_is_unchanged() {
    for code in ["a\r\n", "a\r\nb", "--\r\r\n", "x = 1\r\n\r\ny = 2\n"] {
        assert_eq!(run(code, false), code);
    }
    let none: Vec<Token> = Vec::new();
    let opts = RewriteOptions { array_mode: false };
    for code in ["z\r", "a\r\r\nb\r", "\r\n\r\n"] {
        assert_eq!(format_with_tokens(code, &none, &opts), code);
    }
}

#[test]
fn second_pass_after_crlf_changes_nothing() {
    let once = run("--\r\r\nf();\r\n", false);
    assert_eq!(once, "--\r\r\nf()\r\n");
    assert_eq!(run(&once, false), once);
}

#[test]
fn tokenizer_error_is_reported() {
    match format_source("--[[ Unclosed comment!", &RewriteOptions { array_mode: false }) {
        Err(FormatError::Tokenize(msg)) => assert!(!msg.is_empty()),
        Ok(s) => panic!("expected an error, got {:?}", s),
    }
}

#[test]
fn depths_follow_tokens() {
    let mut d = Depths::new();
    assert_eq!((d.bracket, d.function), (0, 0));
    d.observe(TokenKind::Function);
    assert_eq!((d.bracket, d.function), (0, 0));
    d.observe(TokenKind::LeftBrace);
    d.observe(TokenKind::LeftBracket);
    assert_eq!(d.bracket, 2);
    d.observe(TokenKind::Function);
    assert_eq!(d.function, 1);
    d.observe(TokenKind::Semicolon);
    d.observe(TokenKind::Other);
    assert_eq!((d.bracket, d.function), (2, 1));
    d.observe(TokenKind::End);
    d.observe(TokenKind::RightBracket);
    d.observe(TokenKind::RightBrace);
    assert_eq!((d.bracket, d.function), (0, 0));
    d.observe(TokenKind::End);
    assert_eq!(d.function, 0);
}

#[test]
fn action_per_depths() {
    let top = Depths { bracket: 0, function: 0 };
    let table = Depths { bracket: 1, function: 0 };
    let body = Depths { bracket: 1, function: 1 };
    assert_eq!(Action::for_semicolon(&top, false), Action::Strip);
    assert_eq!(Action::for_semicolon(&top, true), Action::Strip);
    assert_eq!(Action::for_semicolon(&table, false), Action::Comma);
    assert_eq!(Action::for_semicolon(&table, true), Action::Skip);
    assert_eq!(Action::for_semicolon(&body, false), Action::Strip);
    assert_eq!(Action::for_semicolon(&body, true), Action::Skip);
}

#[test]
fn semicolons_are_counted() {
    assert_eq!(semicolon_count(&chars("")), 0);
    assert_eq!(semicolon_count(&chars("a;b;;")), 3);
}

#[test]
fn lines_split_like_std() {
    for code in ["", "a", "a\n", "a\n\nb", "\n", "a\r\nb\r", "x\r\r\ny\n\n"] {
        let (lines, crlf) = split_lines(code);
        let got: Vec<String> = lines.iter().map(|l| text(l)).collect();
        let want: Vec<String> = code.lines().map(String::from).collect();
        assert_eq!(got, want, "{:?}", code);
        let breaks = code.matches('\n').count();
        assert_eq!(crlf.len(), breaks, "{:?}", code);
        assert_eq!(crlf.iter().filter(|b| **b).count(), code.matches("\r\n").count());
    }
}

#[test]
fn lines_join_with_or_without_final_break() {
    let lines = vec![chars("a"), chars(""), chars("b")];
    assert_eq!(join_lines(&lines, &vec![false, false, false], true), "a\n\nb\n");
    assert_eq!(join_lines(&lines, &vec![false, false], false), "a\n\nb");
    assert_eq!(join_lines(&lines, &vec![true, false, true], true), "a\r\n\nb\r\n");
    assert_eq!(join_lines(&lines, &vec![false, true], false), "a\n\r\nb");
    assert_eq!(join_lines(&Vec::new(), &Vec::new(), false), "");
    assert!(ends_with_line_break("x\n"));
    assert!(!ends_with_line_break("x"));
    assert!(!ends_with_line_break(""));
}

#[test]
fn given_tokens_drive_the_edit() {
    let toks = vec![
        Token::new(TokenKind::LeftBrace, 1),
        Token::new(TokenKind::Semicolon, 2),
        Token::new(TokenKind::Semicolon, 9),
        Token::new(TokenKind::RightBrace, 3),
    ];
    let out = format_with_tokens("{\n1;\n}", &toks, &RewriteOptions { array_mode: false });
    assert_eq!(out, "{\n1,\n}");
}

#[test]
fn line_buffer_rewritten_in_place() {
    let mut lines = vec![chars("f();"), chars("g();")];
    let toks = vec![Token::new(TokenKind::Semicolon, 2)];
    rewrite_lines(&mut lines, &toks, &RewriteOptions { array_mode: false });
    assert_eq!(lines, vec![chars("f();"), chars("g()")]);
}

#[test]
fn lua_file_names() {
    assert!(is_lua_file_name("init.lua"));
    assert!(is_lua_file_name("mod.luau"));
    assert!(!is_lua_file_name("lua"));
    assert!(!is_lua_file_name("notes.txt"));
    assert!(!is_lua_file_name("a.lua.bak"));
}

#[test]
fn emptied_last_line_without_break() {
    // the last line loses its only character, so the text ends on the
    // break of the line before it
    assert_eq!(run("x = 1\n;", false), "x = 1\n");
    assert_eq!(run(";", false), "");
}
