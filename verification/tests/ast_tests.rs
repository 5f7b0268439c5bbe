use gml_parser::ast::{
    AST, BinaryExpr, Expr, ForExpr, FunctionExpr, UnaryExpr, VarExpr,
};
use gml_parser::token::Operator;

fn id(s: &str) -> Expr {
    Expr::LiteralIdentifier(s.to_string())
}

fn num(s: &str) -> Expr {
    Expr::LiteralReal(s.to_string())
}

fn bin(op: Operator, left: Expr, right: Expr) -> Expr {
    Expr::Binary(Box::new(BinaryExpr { op, left, right }))
}

fn un(op: Operator, child: Expr) -> Expr {
    Expr::Unary(Box::new(UnaryExpr { op, child }))
}

fn var(names: &[&str]) -> Expr {
    Expr::Var(Box::new(VarExpr { vars: names.iter().map(|s| s.to_string()).collect() }))
}

fn call(name: &str, params: Vec<Expr>) -> Expr {
    Expr::Function(Box::new(FunctionExpr { name: name.to_string(), params }))
}

fn assert_ast(input: &str, expected_output: Option<Vec<Expr>>) {
    match AST::new(input) {
        Ok(ast) => {
            if let Some(e) = expected_output {
                assert_eq!(ast.expressions, e);
            }
        }
        Err(e) => panic!("AST test encountered error: '{}' for input: {}", e.text(), input),
    }
}

#[test]
fn test_nothing() {
    assert_ast("", Some(vec![]))
}

#[test]
fn test_assignment_op_assign() {
    assert_ast("a = 1", Some(vec![bin(Operator::Assign, id("a"), num("1"))]))
}

#[test]
fn test_assignment_op_add() {
    assert_ast("b += 2", Some(vec![bin(Operator::AssignAdd, id("b"), num("2"))]))
}

#[test]
fn test_assignment_op_subtract() {
    assert_ast("c -= 3", Some(vec![bin(Operator::AssignSubtract, id("c"), num("3"))]))
}

#[test]
fn test_assignment_op_multiply() {
    assert_ast("d *= 4", Some(vec![bin(Operator::AssignMultiply, id("d"), num("4"))]))
}

#[test]
fn test_assignment_op_divide() {
    assert_ast("e /= 5", Some(vec![bin(Operator::AssignDivide, id("e"), num("5"))]))
}

#[test]
fn test_assignment_op_and() {
    assert_ast("f &= 6", Some(vec![bin(Operator::AssignBinaryAnd, id("f"), num("6"))]))
}

#[test]
fn test_assignment_op_or() {
    assert_ast("g |= 7", Some(vec![bin(Operator::AssignBinaryOr, id("g"), num("7"))]))
}

#[test]
fn test_assignment_op_xor() {
    assert_ast("h ^= 8", Some(vec![bin(Operator::AssignBinaryXor, id("h"), num("8"))]))
}

#[test]
#[should_panic]
fn test_assignment_op_invalid() {
    assert_ast("i * 9", None);
}

#[test]
#[should_panic]
fn test_assignment_op_not() {
    assert_ast("j ! 10", None);
}

#[test]
#[should_panic]
fn test_assignment_op_complement() {
    assert_ast("k ~ 11", None);
}

#[test]
fn test_assignment_lhs() {
    assert_ast(
        "a.b[c] += d;",
        Some(vec![bin(
            Operator::AssignAdd,
            bin(
                Operator::Index,
                bin(Operator::Deref, id("a"), id("b")),
                Expr::Group(vec![id("c")]),
            ),
            id("d"),
        )]),
    );
}

#[test]
fn test_assignment_2d_index() {
    assert_ast(
        "a.b[c].d.e[f,g]=h[i,j].k",
        Some(vec![bin(
            Operator::Assign,
            bin(
                Operator::Index,
                bin(
                    Operator::Deref,
                    bin(
                        Operator::Deref,
                        bin(
                            Operator::Index,
                            bin(Operator::Deref, id("a"), id("b")),
                            Expr::Group(vec![id("c")]),
                        ),
                        id("d"),
                    ),
                    id("e"),
                ),
                Expr::Group(vec![id("f"), id("g")]),
            ),
            bin(
                Operator::Deref,
                bin(Operator::Index, id("h"), Expr::Group(vec![id("i"), id("j")])),
                id("k"),
            ),
        )]),
    );
}

#[test]
fn test_assignment_lhs_expression() {
    assert_ast(
        "(a + 1).x = 400;",
        Some(vec![bin(
            Operator::Assign,
            bin(Operator::Deref, bin(Operator::Add, id("a"), num("1")), id("x")),
            num("400"),
        )]),
    );
}

#[test]
fn test_assignment_assign_equal() {
    assert_ast(
        "a=b=c",
        Some(vec![bin(Operator::Assign, id("a"), bin(Operator::Equal, id("b"), id("c")))]),
    );
}

#[test]
fn test_assignment_assign_equal_complex() {
    assert_ast(
        "(a=b).c[d=e]=f[g=h]=i",
        Some(vec![bin(
            Operator::Assign,
            bin(
                Operator::Index,
                bin(Operator::Deref, bin(Operator::Equal, id("a"), id("b")), id("c")),
                Expr::Group(vec![bin(Operator::Equal, id("d"), id("e"))]),
            ),
            bin(
                Operator::Equal,
                bin(
                    Operator::Index,
                    id("f"),
                    Expr::Group(vec![bin(Operator::Equal, id("g"), id("h"))]),
                ),
                id("i"),
            ),
        )]),
    );
}

#[test]
#[should_panic]
fn test_deref_not_id() {
    assert_ast("a..=1", None)
}

#[test]
fn test_btree_unary_positive() {
    assert_ast(
        "a=+1",
        Some(vec![bin(Operator::Assign, id("a"), un(Operator::Add, num("1")))]),
    )
}

#[test]
fn test_btree_unary_subtract() {
    assert_ast(
        "a=-1",
        Some(vec![bin(Operator::Assign, id("a"), un(Operator::Subtract, num("1")))]),
    )
}

#[test]
fn test_btree_unary_complement() {
    assert_ast(
        "a=~1",
        Some(vec![bin(Operator::Assign, id("a"), un(Operator::Complement, num("1")))]),
    )
}

#[test]
fn test_btree_unary_not() {
    assert_ast(
        "a=!1",
        Some(vec![bin(Operator::Assign, id("a"), un(Operator::Not, num("1")))]),
    )
}

#[test]
fn test_btree_unary_syntax() {
    assert_ast(
        "a = 1+!~-b.c[+d]-2--3",
        Some(vec![bin(
            Operator::Assign,
            id("a"),
            bin(
                Operator::Subtract,
                bin(
                    Operator::Subtract,
                    bin(
                        Operator::Add,
                        num("1"),
                        un(
                            Operator::Not,
                            un(
                                Operator::Complement,
                                un(
                                    Operator::Subtract,
                                    bin(
                                        Operator::Index,
                                        bin(Operator::Deref, id("b"), id("c")),
                                        Expr::Group(vec![un(Operator::Add, id("d"))]),
                                    ),
                                ),
                            ),
                        ),
                    ),
                    num("2"),
                ),
                un(Operator::Subtract, num("3")),
            ),
        )]),
    )
}

#[test]
fn test_btree_unary_grouping() {
    assert_ast(
        "a = ~(b + 1)",
        Some(vec![bin(
            Operator::Assign,
            id("a"),
            un(Operator::Complement, bin(Operator::Add, id("b"), num("1"))),
        )]),
    )
}

#[test]
fn test_function_syntax() {
    assert_ast(
        "instance_create(random(800), random(608,), apple);",
        Some(vec![call(
            "instance_create",
            vec![
                call("random", vec![num("800")]),
                call("random", vec![num("608")]),
                id("apple"),
            ],
        )]),
    )
}

#[test]
fn test_for_syntax_standard() {
    assert_ast(
        "for(i = 0; i < 10; i += 1) { a = 1; b = c;}",
        Some(vec![Expr::For(Box::new(ForExpr {
            start: bin(Operator::Assign, id("i"), num("0")),
            cond: bin(Operator::LessThan, id("i"), num("10")),
            step: bin(Operator::AssignAdd, id("i"), num("1")),
            body: Expr::Group(vec![
                bin(Operator::Assign, id("a"), num("1")),
                bin(Operator::Assign, id("b"), id("c")),
            ]),
        }))]),
    )
}

#[test]
fn test_for_syntax_no_sep() {
    assert_ast(
        "for(i=0 i<10 i+=1) c=3",
        Some(vec![Expr::For(Box::new(ForExpr {
            start: bin(Operator::Assign, id("i"), num("0")),
            cond: bin(Operator::LessThan, id("i"), num("10")),
            step: bin(Operator::AssignAdd, id("i"), num("1")),
            body: bin(Operator::Assign, id("c"), num("3")),
        }))]),
    )
}

#[test]
fn test_for_syntax_random_sep() {
    assert_ast(
        "for(i=0; i<10 i+=1; ;) {d=4}",
        Some(vec![Expr::For(Box::new(ForExpr {
            start: bin(Operator::Assign, id("i"), num("0")),
            cond: bin(Operator::LessThan, id("i"), num("10")),
            step: bin(Operator::AssignAdd, id("i"), num("1")),
            body: Expr::Group(vec![bin(Operator::Assign, id("d"), num("4"))]),
        }))]),
    )
}

#[test]
fn test_var_syntax() {
    assert_ast("var a; var b, c", Some(vec![var(&["a"]), var(&["b", "c"])]))
}

#[test]
fn test_var_syntax_complex() {
    assert_ast(
        "var; var a,b,; var c,var",
        Some(vec![var(&[]), var(&["a", "b"]), var(&["c"]), var(&[])]),
    )
}

#[test]
#[should_panic]
fn test_var_invalid_comma() {
    assert_ast("var, a;", None)
}
