use mvm::ast::parse;
use mvm::ast::AstNode;
use mvm::ast::CompileError;
use mvm::ast::Value;

fn nodes_of(src: &str) -> Vec<AstNode> {
    match parse(src).expect("parse failed") {
        AstNode::Tree(name, nodes) => {
            assert_eq!(name, "anon");
            nodes
        },
        other => panic!("expected a tree, got {:?}", other),
    }
}

#[test]
fn parse_mixed_program() {
    let nodes = nodes_of("; program\n.start:\n    addb ._zero 10 ; trailing\n    xit\n");
    assert_eq!(nodes.len(), 5);
    assert_eq!(nodes[0], AstNode::Comment(" program".to_string()));
    assert_eq!(nodes[1], AstNode::Label(".start".to_string()));
    assert_eq!(
        nodes[2],
        AstNode::Cmd(
            "addb".to_string(),
            vec![Value::Label("._zero".to_string()), Value::Int(10)]
        )
    );
    assert_eq!(nodes[3], AstNode::Comment(" trailing".to_string()));
    assert_eq!(nodes[4], AstNode::Cmd("xit".to_string(), vec![]));
}

#[test]
fn parse_empty_source_gives_empty_tree() {
    assert_eq!(nodes_of("").len(), 0);
    assert_eq!(nodes_of("\n\n   \n").len(), 0);
}

#[test]
fn parse_label_drops_colons() {
    let nodes = nodes_of(".lo:op:\n");
    assert_eq!(nodes[0], AstNode::Label(".loop".to_string()));
}

#[test]
fn parse_address_literal() {
    let nodes = nodes_of("cpyb &65 7\n");
    assert_eq!(
        nodes[0],
        AstNode::Cmd("cpyb".to_string(), vec![Value::Addr(65), Value::Int(7)])
    );
}

#[test]
fn parse_string_literal_keeps_body() {
    let nodes = nodes_of("cpyb &65 \"hi\"\n");
    assert_eq!(
        nodes[0],
        AstNode::Cmd("cpyb".to_string(), vec![Value::Addr(65), Value::Str("hi".to_string())])
    );
}

#[test]
fn parse_large_numeral_is_unsigned() {
    let nodes = nodes_of("cpyw &100 18446744073709551615\n");
    assert_eq!(
        nodes[0],
        AstNode::Cmd("cpyw".to_string(), vec![Value::Addr(100), Value::Uint(u64::MAX)])
    );
}

#[test]
fn parse_rejects_unexpected_leading_char() {
    assert_eq!(parse("@oops\n"), Err(CompileError::UnexpectedChar('@')));
}

#[test]
fn parse_rejects_unterminated_string() {
    assert_eq!(
        parse("cpyb &65 \"abc\n"),
        Err(CompileError::UnterminatedString("\"abc".to_string()))
    );
}

#[test]
fn parse_rejects_malformed_numeral() {
    assert_eq!(
        parse("addb &65 12x\n"),
        Err(CompileError::MalformedNumeral("12x".to_string()))
    );
}

#[test]
fn parse_rejects_numeral_out_of_range() {
    assert_eq!(
        parse("addb &65 18446744073709551616\n"),
        Err(CompileError::MalformedNumeral("18446744073709551616".to_string()))
    );
}

#[test]
fn parse_rejects_malformed_address() {
    assert_eq!(
        parse("addb &x6 1\n"),
        Err(CompileError::MalformedAddress("&x6".to_string()))
    );
}

#[test]
fn parse_rejects_bare_ampersand() {
    assert_eq!(parse("addb & 1\n"), Err(CompileError::MalformedAddress("&".to_string())));
}

#[test]
fn parse_allows_indented_lines() {
    let nodes = nodes_of("   nop\n\t xit\n");
    assert_eq!(nodes.len(), 2);
    assert_eq!(nodes[0], AstNode::Cmd("nop".to_string(), vec![]));
    assert_eq!(nodes[1], AstNode::Cmd("xit".to_string(), vec![]));
}

#[test]
fn parse_label_at_end_of_input() {
    let nodes = nodes_of("xit\n.done");
    assert_eq!(nodes[1], AstNode::Label(".done".to_string()));
}
