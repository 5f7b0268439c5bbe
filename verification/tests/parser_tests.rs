use gml_parser::ast::AST;

fn rendered(src: &str) -> Vec<String> {
    let ast = AST::new(src).expect("parse failed");
    ast.expressions.iter().map(|e| e.render()).collect()
}

fn parse_err(src: &str) -> String {
    AST::new(src).err().expect("parse unexpectedly succeeded").text()
}

#[test]
fn render_assignment() {
    assert_eq!(rendered("a = 1"), vec!["(= a 1)"]);
}

#[test]
fn render_assign_equal_chain() {
    assert_eq!(rendered("a=b=c"), vec!["(= a (== b c))"]);
}

#[test]
fn render_index_lhs() {
    assert_eq!(rendered("a.b[c] += d;"), vec!["(+= (Index (. a b) <c>) d)"]);
}

#[test]
fn render_paren_lhs() {
    assert_eq!(rendered("(a + 1).x = 400;"), vec!["(= (. (+ a 1) x) 400)"]);
}

#[test]
fn render_for_loop() {
    assert_eq!(
        rendered("for(i = 0; i < 10; i += 1) { a = 1; b = c; }"),
        vec!["(for ((= i 0), (< i 10), (+= i 1)) <(= a 1), (= b c)>)"],
    );
}

#[test]
fn render_var_lists() {
    assert_eq!(rendered("var a; var b, c"), vec!["(var a)", "(var b c)"]);
    assert_eq!(
        rendered("var; var a,b,; var c,var"),
        vec!["(var)", "(var a b)", "(var c)", "(var)"],
    );
}

#[test]
fn render_control_flow() {
    assert_eq!(rendered("if a then b = 1"), vec!["(if a (= b 1))"]);
}

#[test]
fn render_if_else() {
    assert_eq!(rendered("if a b=1 else c=2"), vec!["(if a (= b 1) (= c 2))"]);
}

#[test]
fn render_do_until() {
    assert_eq!(rendered("do x=1 until x"), vec!["(do (= x 1) until x)"]);
}

#[test]
fn render_while_with_switch_repeat() {
    assert_eq!(rendered("while a b=1"), vec!["(while a (= b 1))"]);
    assert_eq!(rendered("with a b=1"), vec!["(with a (= b 1))"]);
    assert_eq!(rendered("switch a { case 1: exit }"), vec!["(switch a <(case 1), (exit)>)"]);
    assert_eq!(rendered("repeat 3 x=1"), vec!["(repeat 3 (= x 1))"]);
}

#[test]
fn render_leaves_and_return() {
    assert_eq!(
        rendered("{ break; continue; exit; return 5; default: }"),
        vec!["<(break), (continue), (exit), (return 5), (default)>"],
    );
}

#[test]
fn render_string_literal() {
    assert_eq!(rendered("a = \"hi\""), vec!["(= a \"hi\")"]);
    assert_eq!(rendered("a = 'hi'"), vec!["(= a \"hi\")"]);
}

#[test]
fn render_empty_index() {
    assert_eq!(rendered("a[] = 1"), vec!["(= (Index a <>) 1)"]);
}

#[test]
fn render_function_call() {
    assert_eq!(
        rendered("instance_create(random(800), random(608,), apple);"),
        vec!["(@instance_create (@random 800) (@random 608) apple)"],
    );
}

#[test]
fn precedence_tighter_on_right() {
    assert_eq!(rendered("x = a + b * c"), vec!["(= x (+ a (* b c)))"]);
}

#[test]
fn precedence_tighter_on_left() {
    assert_eq!(rendered("x = a * b + c"), vec!["(= x (+ (* a b) c))"]);
}

#[test]
fn precedence_left_associative() {
    assert_eq!(rendered("x = a - b - c"), vec!["(= x (- (- a b) c))"]);
    assert_eq!(rendered("x = a / b / c"), vec!["(= x (/ (/ a b) c))"]);
}

#[test]
fn precedence_word_operators() {
    assert_eq!(rendered("x = a div b mod c"), vec!["(= x (mod (div a b) c))"]);
    assert_eq!(rendered("x = a && b || c"), vec!["(= x (|| (&& a b) c))"]);
    assert_eq!(rendered("x = a << b & c"), vec!["(= x (& (<< a b) c))"]);
}

#[test]
fn equal_inside_subexpressions() {
    assert_eq!(rendered("a[b = c] = d"), vec!["(= (Index a <(== b c)>) d)"]);
    assert_eq!(rendered("f(a = b)"), vec!["(@f (== a b))"]);
}

#[test]
fn semicolons_are_idempotent() {
    let once = rendered("a = 1; b = 2");
    assert_eq!(rendered(";;a = 1;;;b = 2;;"), once);
    assert_eq!(rendered("a = 1 b = 2"), once);
}

#[test]
fn semicolons_in_groups_are_idempotent() {
    assert_eq!(rendered("{ a = 1;; b = 2; }"), rendered("{ a = 1 b = 2 }"));
    assert_eq!(rendered("{ a = 1 b = 2 }"), vec!["<(= a 1), (= b 2)>"]);
}

#[test]
fn index_group_arity_is_unbounded() {
    assert_eq!(rendered("a[x,y,z] = 1"), vec!["(= (Index a <x, y, z>) 1)"]);
}

#[test]
fn comments_and_whitespace_skipped() {
    assert_eq!(rendered("// note\na = 1 /* and */ ;"), vec!["(= a 1)"]);
}

#[test]
fn empty_source_parses_empty() {
    let ast = AST::new("").expect("empty source must parse");
    assert!(ast.expressions.is_empty());
    assert_eq!(AST::empty().expressions, ast.expressions);
}

#[test]
fn real_literal_forms() {
    assert_eq!(rendered("a = 1.5"), vec!["(= a 1.5)"]);
    assert_eq!(rendered("a = .5"), vec!["(= a .5)"]);
}

#[test]
fn error_unterminated_string() {
    let msg = parse_err("a = \"oops");
    assert!(msg.contains("unterminated"));
}

#[test]
fn error_unrecognized_character() {
    let msg = parse_err("a = #");
    assert!(msg.contains("unrecognized"));
}

#[test]
fn error_unclosed_brace() {
    let msg = parse_err("{ a = 1;");
    assert!(msg.contains("unclosed brace"));
}

#[test]
fn error_unclosed_paren() {
    let msg = parse_err("a = (1 + 2");
    assert!(msg.contains("parenthesis"));
}

#[test]
fn error_do_without_until() {
    let msg = parse_err("do x=1 while x");
    assert!(msg.contains("loop closer"));
}

#[test]
fn error_bad_statement_start() {
    let msg = parse_err("* 2");
    assert!(msg.contains("invalid token"));
}

#[test]
fn error_carries_line_number() {
    let msg = parse_err("a = 1\nb = \"oops");
    assert!(msg.contains("line 2"), "message was: {}", msg);
}
