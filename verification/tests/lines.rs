use stellaris_save_editor::lines::{join_lines, key_in_parentheses, split_lines};
use stellaris_save_editor::text::fits_char_limit;

#[test]
fn split_lines_agrees_with_std() {
    for s in ["", "a", "a\n", "\n", "a\nb", "a\r\nb\r\n", "a\n\nb", "\na", "x\r", "a\rb\n", "黑\n风"] {
        let expected: Vec<String> = s.lines().map(|l| l.to_string()).collect();
        assert_eq!(split_lines(s), expected, "{:?}", s);
    }
}

#[test]
fn join_lines_puts_newlines_between() {
    let ls = vec!["a".to_string(), "".to_string(), "b".to_string()];
    assert_eq!(join_lines(&ls), "a\n\nb");
    assert_eq!(join_lines(&vec![]), "");
    assert_eq!(join_lines(&vec!["x".to_string()]), "x");
}

#[test]
fn join_after_split_gives_the_text_back() {
    for s in ["", "a", "a\nb", "\na", "a\n\n\nb", "gamestate={\n\tx=1\n}"] {
        assert_eq!(join_lines(&split_lines(s)), s);
    }
}

#[test]
fn key_in_parentheses_takes_the_menu_key() {
    assert_eq!(
        key_in_parentheses("信息收集 (operation_gather_information)"),
        Some("operation_gather_information".to_string())
    );
    assert_eq!(key_in_parentheses("芬·哈巴尼斯 (site_fen_habbanis)"), Some("site_fen_habbanis".to_string()));
    assert_eq!(key_in_parentheses("()"), Some(String::new()));
    assert_eq!(key_in_parentheses("手动输入"), None);
    assert_eq!(key_in_parentheses(")a("), None);
    assert_eq!(key_in_parentheses("(a"), None);
}

#[test]
fn small_saves_fit_the_limit() {
    assert!(fits_char_limit(&vec![]));
    assert!(fits_char_limit(&vec!["a={".to_string(), "}".to_string()]));
}
