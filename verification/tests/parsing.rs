use pseudocode::condition::Condition;
use pseudocode::error::ParseError;
use pseudocode::expression::Expression;
use pseudocode::node::{
    Assignment, Break, Comment, Continue, Else, ElseIf, End, FunctionCall, If, Loop, LoopType,
    Node, Return, Start,
};
use pseudocode::operator::{ArithmeticOperator, ComparisonOperator, LogicalOperator};

fn var(name: &str) -> Expression {
    Expression::Variable(name.to_string())
}

fn lit(value: &str) -> Expression {
    Expression::Literal(value.to_string())
}

fn binary(left: Expression, operator: ArithmeticOperator, right: Expression) -> Expression {
    Expression::BinaryOp { left: Box::new(left), operator: Box::new(operator), right: Box::new(right) }
}

fn call(name: &str, args: Vec<Expression>) -> Expression {
    Expression::FunctionCall { name: name.to_string(), args }
}

fn not(inner: Expression) -> Expression {
    Expression::Not(Box::new(inner))
}

fn compare(left: Expression, operator: ComparisonOperator, right: Expression) -> Condition {
    Condition::ComparisonOperator {
        left: Box::new(left),
        operator: Box::new(operator),
        right: Box::new(right),
    }
}

fn logical(left: Condition, operator: LogicalOperator, right: Condition) -> Condition {
    Condition::LogicalOperator {
        left: Box::new(left),
        operator: Box::new(operator),
        right: Box::new(right),
    }
}

fn unexpected(expected: &str, found: &str) -> ParseError {
    ParseError::UnexpectedToken { expected: expected.to_string(), found: found.to_string() }
}

fn expression(tokens: &[&str]) -> (Expression, Vec<String>) {
    let (e, rest) = Expression::parse(tokens).expect("expression");
    (*e, rest.iter().map(|t| t.to_string()).collect())
}

fn condition(tokens: &[&str]) -> (Condition, Vec<String>) {
    let (c, rest) = Condition::parse(tokens).expect("condition");
    (*c, rest.iter().map(|t| t.to_string()).collect())
}

fn words(tokens: &[&str]) -> Vec<String> {
    tokens.iter().map(|t| t.to_string()).collect()
}

#[test]
fn start_end_has_empty_body() {
    assert_eq!(Node::new("start end"), Ok(Node::Start(Start { body: vec![] })));
}

#[test]
fn start_leaves_its_own_end_unread() {
    let (start, rest) = Start::parse(&["start", "end"]).expect("start");
    assert_eq!(*start, Start { body: vec![] });
    assert_eq!(rest, &["end"]);
}

#[test]
fn if_with_return_inside_start() {
    let expected = Node::Start(Start {
        body: vec![
            Node::If(If {
                condition: compare(var("x"), ComparisonOperator::Eq, lit("5")),
                body: vec![Node::Return(Return { value: var("x") })],
            }),
            Node::End(End),
        ],
    });
    assert_eq!(Node::new("start if x == 5 return x end end"), Ok(expected));
}

#[test]
fn assignment_of_a_sum() {
    let (assignment, rest) = Assignment::parse(&["assign", "y", "=", "x", "+", "10"]).expect("assignment");
    assert_eq!(
        *assignment,
        Assignment { var: "y".to_string(), value: binary(var("x"), ArithmeticOperator::Addition, lit("10")) }
    );
    assert!(rest.is_empty());
}

#[test]
fn assignment_keyword_in_any_case() {
    assert!(Assignment::matches("assign"));
    assert!(Assignment::matches("ASSIGN"));
    assert!(Assignment::matches("Assign"));
    assert!(!Assignment::matches("assigns"));
    assert!(!Assignment::matches("let"));
    let (assignment, _) = Assignment::parse(&["Assign", "y", "=", "1"]).expect("assignment");
    assert_eq!(*assignment, Assignment { var: "y".to_string(), value: lit("1") });
}

#[test]
fn assignment_without_equals_or_value_misses_tokens() {
    assert_eq!(Assignment::parse(&["assign", "y", "x", "1"]).err(), Some(ParseError::MissingTokens));
    assert_eq!(Assignment::parse(&["assign", "y", "="]).err(), Some(ParseError::MissingTokens));
    assert_eq!(Assignment::parse(&["assign"]).err(), Some(ParseError::MissingTokens));
    assert_eq!(Assignment::parse(&[]).err(), Some(ParseError::MissingTokens));
    assert_eq!(Assignment::parse(&["foo", "y", "=", "1"]).err(), Some(unexpected("assign", "foo")));
}

#[test]
fn function_call_in_one_token() {
    let (found, rest) = FunctionCall::parse(&["function(x,y,z)"]).expect("call");
    assert_eq!(
        *found,
        FunctionCall { name: "function".to_string(), args: vec![var("x"), var("y"), var("z")] }
    );
    assert!(rest.is_empty());
}

#[test]
fn function_call_over_three_tokens() {
    let (found, rest) = FunctionCall::parse(&["function(x,", "y,", "z)", "end"]).expect("call");
    assert_eq!(
        *found,
        FunctionCall { name: "function".to_string(), args: vec![var("x"), var("y"), var("z")] }
    );
    assert_eq!(rest, &["end"]);
}

#[test]
fn function_call_without_closing_parenthesis_is_an_error() {
    assert_eq!(FunctionCall::parse(&["function(x,", "y"]).err(), Some(ParseError::MissingTokens));
    assert_eq!(FunctionCall::parse(&["function(x"]).err(), Some(ParseError::MissingTokens));
    assert_eq!(Expression::parse(&["f(x"]).err(), Some(ParseError::MissingTokens));
    assert_eq!(Expression::parse(&[")("]).err(), Some(ParseError::MissingTokens));
    assert_eq!(Expression::parse(&["f(x)(y)"]).err(), Some(ParseError::MissingTokens));
    assert_eq!(Node::new("start f(x").err(), Some(ParseError::MissingTokens));
}

#[test]
fn function_call_by_keyword() {
    assert!(FunctionCall::matches("function"));
    assert!(FunctionCall::matches("FUNCTION"));
    assert!(FunctionCall::matches("f(x)"));
    assert!(!FunctionCall::matches("f"));
    let (found, rest) = FunctionCall::parse(&["function", "f", "x", "+", "1", "y"]).expect("call");
    assert_eq!(
        *found,
        FunctionCall {
            name: "f".to_string(),
            args: vec![binary(var("x"), ArithmeticOperator::Addition, lit("1")), var("y")],
        }
    );
    assert!(rest.is_empty());
    assert_eq!(FunctionCall::parse(&["function"]).err(), Some(ParseError::MissingTokens));
    assert_eq!(FunctionCall::parse(&["f"]).err(), Some(unexpected("function", "f")));
    assert_eq!(FunctionCall::parse(&[]).err(), Some(ParseError::MissingTokens));
}

#[test]
fn function_call_by_keyword_stops_at_an_argument_that_fails() {
    let (found, rest) = FunctionCall::parse(&["function", "f", "x", "g(y", "z"]).expect("call");
    assert_eq!(*found, FunctionCall { name: "f".to_string(), args: vec![var("x")] });
    assert_eq!(rest, &["g(y", "z"]);
}

#[test]
fn function_call_arguments() {
    assert_eq!(Expression::parse_function_arguments(""), Ok(vec![]));
    assert_eq!(Expression::parse_function_arguments("  "), Ok(vec![]));
    assert_eq!(Expression::parse_function_arguments(",,"), Ok(vec![]));
    assert_eq!(Expression::parse_function_arguments("x"), Ok(vec![var("x")]));
    assert_eq!(Expression::parse_function_arguments(" x , 1 "), Ok(vec![var("x"), lit("1")]));
    assert_eq!(
        Expression::parse_function_arguments("a + b, !c"),
        Ok(vec![binary(var("a"), ArithmeticOperator::Addition, var("b")), not(var("c"))])
    );
    // what follows the expression of an argument is dropped
    assert_eq!(Expression::parse_function_arguments("x y z"), Ok(vec![var("x")]));
    // a comma cuts a nested call in two
    assert_eq!(Expression::parse_function_arguments("g(a, b)"), Err(ParseError::MissingTokens));
    assert_eq!(Expression::parse_function_arguments("g(a)"), Ok(vec![call("g", vec![var("a")])]));
}

#[test]
fn call_with_empty_name() {
    let (e, rest) = expression(&["(x", "+", "1)"]);
    assert_eq!(e, call("", vec![binary(var("x"), ArithmeticOperator::Addition, lit("1"))]));
    assert!(rest.is_empty());
}

#[test]
fn call_parts_give_name_arguments_and_rest() {
    let (name, args, rest) = Expression::parse_call_parts(&["f(a,", "g(b))", "+", "1"]).expect("call");
    assert_eq!(name, "f");
    assert_eq!(args, vec![var("a"), call("g", vec![var("b")])]);
    assert_eq!(rest, &["+", "1"]);
}

#[test]
fn negation_as_expression_and_as_condition() {
    let (e, rest) = expression(&["!result"]);
    assert_eq!(e, not(var("result")));
    assert!(rest.is_empty());
    let (c, rest) = condition(&["!result"]);
    assert_eq!(c, Condition::NotValue("result".to_string()));
    assert!(rest.is_empty());
}

#[test]
fn negation_strips_one_bang_at_a_time() {
    assert_eq!(expression(&["!!x"]), (not(not(var("x"))), vec![]));
    assert_eq!(expression(&["!!!x", "y"]), (not(not(not(var("x")))), words(&["y"])));
    assert_eq!(
        expression(&["!!x", "+", "1"]).0,
        binary(not(not(var("x"))), ArithmeticOperator::Addition, lit("1"))
    );
    assert_eq!(condition(&["!!!x", "y"]), (Condition::NotValue("!!x".to_string()), words(&["y"])));
    assert_eq!(condition(&["!"]).0, Condition::NotValue(String::new()));
}

#[test]
fn bare_bang_negates_what_follows() {
    let (e, rest) = expression(&["!", "a", "+", "b", "end"]);
    assert_eq!(e, not(binary(var("a"), ArithmeticOperator::Addition, var("b"))));
    assert_eq!(rest, words(&["end"]));
    assert_eq!(expression(&["!", "!x"]).0, not(not(var("x"))));
    // what is left of a token is read by itself: the `!` left of `!!` negates nothing
    assert_eq!(Expression::parse(&["!!", "x"]).err(), Some(ParseError::MissingTokens));
}

#[test]
fn attached_bang_negates_its_own_token_only() {
    let (e, rest) = expression(&["!a", "+", "b"]);
    assert_eq!(e, binary(not(var("a")), ArithmeticOperator::Addition, var("b")));
    assert!(rest.is_empty());
    assert_eq!(expression(&["!5"]).0, not(lit("5")));
    assert_eq!(expression(&["!f(x)"]).0, not(call("f", vec![var("x")])));
    assert_eq!(Expression::parse(&["!f(x,", "y)"]).err(), Some(ParseError::MissingTokens));
}

#[test]
fn unknown_statement_names_the_token() {
    assert_eq!(
        Node::build_from_parts(&["foo"]).err(),
        Some(ParseError::UnknownStatement("foo".to_string()))
    );
    assert_eq!(Node::new("start foo"), Err(ParseError::UnknownStatement("foo".to_string())));
    assert_eq!(
        Node::new("start return x foo end"),
        Err(ParseError::UnknownStatement("foo".to_string()))
    );
    assert_eq!(Node::new("start loop"), Err(ParseError::UnknownStatement("loop".to_string())));
    assert_eq!(
        Node::parse_statement(&["break"]).err(),
        Some(ParseError::UnknownStatement("break".to_string()))
    );
}

#[test]
fn program_must_begin_with_start() {
    assert_eq!(Node::new(""), Err(ParseError::EmptyInput));
    assert_eq!(Node::new("  \n\t "), Err(ParseError::EmptyInput));
    assert_eq!(Node::new("foo"), Err(unexpected("start", "foo")));
    assert_eq!(Node::new("if x end"), Err(unexpected("start", "if")));
    assert_eq!(Node::new("START"), Ok(Node::Start(Start { body: vec![] })));
}

#[test]
fn start_inside_a_body_is_refused() {
    assert_eq!(Node::new("start start"), Err(unexpected("statement", "start")));
    assert_eq!(Node::new("start if x Start end end"), Err(unexpected("statement", "Start")));
    assert_eq!(Node::build_from_parts(&["start"]).err(), Some(unexpected("statement", "start")));
}

#[test]
fn nothing_but_the_closing_end_follows_the_block_of_start() {
    let program = Node::Start(Start { body: vec![Node::Return(Return { value: var("x") })] });
    assert_eq!(Node::new("start return x"), Ok(program));
    let program = Node::Start(Start { body: vec![Node::Return(Return { value: var("x") })] });
    assert_eq!(Node::new("start return x end"), Ok(program));
    assert_eq!(
        Node::new("start return x end foo ( bar"),
        Err(ParseError::UnknownStatement("foo".to_string()))
    );
    assert_eq!(
        Node::new("start return x end end"),
        Err(ParseError::UnknownStatement("end".to_string()))
    );
    assert_eq!(Node::new("start end return x"), Err(ParseError::UnknownStatement("return".to_string())));
    assert_eq!(Node::new("start return x else"), Err(unexpected("end", "else")));
    assert_eq!(Node::new("start elseif a"), Err(unexpected("end", "elseif")));
}

#[test]
fn expression_is_right_associative_without_precedence() {
    let (e, rest) = expression(&["a", "+", "b", "*", "c"]);
    assert_eq!(
        e,
        binary(
            var("a"),
            ArithmeticOperator::Addition,
            binary(var("b"), ArithmeticOperator::Multiplication, var("c"))
        )
    );
    assert!(rest.is_empty());
    let (e, _) = expression(&["a", "*", "b", "+", "c"]);
    assert_eq!(
        e,
        binary(
            var("a"),
            ArithmeticOperator::Multiplication,
            binary(var("b"), ArithmeticOperator::Addition, var("c"))
        )
    );
}

#[test]
fn operator_needs_a_token_behind_it() {
    assert_eq!(expression(&["a", "+"]), (var("a"), words(&["+"])));
    assert_eq!(expression(&["a", "b", "c"]), (var("a"), words(&["b", "c"])));
    assert_eq!(expression(&["a", "==", "b"]), (var("a"), words(&["==", "b"])));
}

#[test]
fn call_can_be_a_left_operand() {
    let (e, rest) = expression(&["f(x)", "-", "1"]);
    assert_eq!(e, binary(call("f", vec![var("x")]), ArithmeticOperator::Subtraction, lit("1")));
    assert!(rest.is_empty());
}

#[test]
fn simple_expression_tells_literals_from_variables() {
    assert_eq!(Expression::parse_simple_expression("x"), var("x"));
    assert_eq!(Expression::parse_simple_expression("10"), lit("10"));
    assert_eq!(Expression::parse_simple_expression("-3"), lit("-3"));
    assert_eq!(Expression::parse_simple_expression("2.5"), lit("2.5"));
    assert_eq!(Expression::parse_simple_expression("1e9"), lit("1e9"));
    assert_eq!(Expression::parse_simple_expression("\"hi\""), lit("\"hi\""));
    assert_eq!(Expression::parse_simple_expression("\""), lit("\""));
    assert_eq!(Expression::parse_simple_expression("\"hi"), var("\"hi"));
    assert_eq!(Expression::parse_simple_expression("x1"), var("x1"));
    assert_eq!(Expression::parse_simple_expression("1x"), var("1x"));
    assert_eq!(Expression::parse_simple_expression("inf"), lit("inf"));
    assert_eq!(Expression::parse_simple_expression("NaN"), lit("NaN"));
    assert_eq!(Expression::parse_simple_expression("+"), var("+"));
    assert_eq!(Expression::parse_simple_expression(""), var(""));
}

#[test]
fn tokens_that_run_out_within_a_construct_are_missing() {
    assert_eq!(Expression::parse(&[]).err(), Some(ParseError::MissingTokens));
    assert_eq!(Condition::parse(&[]).err(), Some(ParseError::MissingTokens));
    assert_eq!(Return::parse(&["return"]).err(), Some(ParseError::MissingTokens));
    assert_eq!(If::parse(&["if"]).err(), Some(ParseError::MissingTokens));
    assert_eq!(ElseIf::parse(&["elseif"]).err(), Some(ParseError::MissingTokens));
    assert_eq!(Loop::parse(&["while"]).err(), Some(ParseError::MissingTokens));
    assert_eq!(Expression::parse(&["!"]).err(), Some(ParseError::MissingTokens));
    assert_eq!(Expression::parse(&["x", "+", "!"]).err(), Some(ParseError::MissingTokens));
    assert_eq!(Node::new("start return"), Err(ParseError::MissingTokens));
    assert_eq!(Node::new("start if"), Err(ParseError::MissingTokens));
    assert_eq!(Node::new("start assign y ="), Err(ParseError::MissingTokens));
}

#[test]
fn expression_matches_by_shape() {
    assert!(Expression::matches("x"));
    assert!(Expression::matches("snake_case9"));
    assert!(Expression::matches("\u{e9}t\u{e9}"));
    assert!(Expression::matches("-1.5"));
    assert!(Expression::matches("\"a-b\""));
    assert!(Expression::matches("!x"));
    assert!(Expression::matches("f(x"));
    assert!(!Expression::matches(""));
    assert!(!Expression::matches("a-b"));
    assert!(!Expression::matches("=="));
    assert!(Condition::matches("!"));
    assert!(Condition::matches("x"));
    assert!(!Condition::matches("=="));
}

#[test]
fn try_parse_binary_operation_looks_at_two_tokens() {
    let (operator, rest) = Expression::try_parse_binary_operation(&["%", "2", "x"]).expect("operator");
    assert_eq!(*operator, ArithmeticOperator::Modulo);
    assert_eq!(rest, &["2", "x"]);
    assert!(Expression::try_parse_binary_operation(&["%"]).is_none());
    assert!(Expression::try_parse_binary_operation(&["==", "2"]).is_none());
    assert!(Expression::try_parse_binary_operation(&[]).is_none());
}

#[test]
fn comparison_with_logical_chain() {
    let (c, rest) = condition(&["a", ">", "1", "&&", "b", "||", "!c", "return"]);
    assert_eq!(
        c,
        logical(
            compare(var("a"), ComparisonOperator::Gt, lit("1")),
            LogicalOperator::And,
            logical(
                Condition::Value("b".to_string()),
                LogicalOperator::Or,
                Condition::NotValue("c".to_string())
            )
        )
    );
    assert_eq!(rest, words(&["return"]));
}

#[test]
fn comparison_takes_whole_expressions() {
    let (c, rest) = condition(&["a", "+", "1", "<=", "f(b)", "*", "2", "x"]);
    assert_eq!(
        c,
        compare(
            binary(var("a"), ArithmeticOperator::Addition, lit("1")),
            ComparisonOperator::Lte,
            binary(call("f", vec![var("b")]), ArithmeticOperator::Multiplication, lit("2"))
        )
    );
    assert_eq!(rest, words(&["x"]));
}

#[test]
fn bare_variable_is_a_condition() {
    assert_eq!(condition(&["done"]), (Condition::Value("done".to_string()), vec![]));
    assert_eq!(condition(&["done", "return", "x"]).1, words(&["return", "x"]));
    assert_eq!(condition(&["done", "&&"]), (Condition::Value("done".to_string()), words(&["&&"])));
}

#[test]
fn negated_name_ends_the_condition() {
    assert_eq!(
        condition(&["!a", "&&", "b"]),
        (Condition::NotValue("a".to_string()), words(&["&&", "b"]))
    );
}

#[test]
fn other_shapes_are_no_condition() {
    assert_eq!(Condition::parse(&["5"]).err(), Some(ParseError::MissingTokens));
    assert_eq!(Condition::parse(&["5", "=="]).err(), Some(ParseError::MissingTokens));
    assert_eq!(
        Condition::parse(&["5", "return", "x"]).err(),
        Some(ParseError::InvalidOperator("return".to_string()))
    );
    assert_eq!(
        Condition::parse(&["f(x)", "&&", "y"]).err(),
        Some(ParseError::InvalidOperator("&&".to_string()))
    );
    assert_eq!(Condition::parse(&["a", "==", "f(x"]).err(), Some(ParseError::MissingTokens));
}

#[test]
fn operators_by_symbol() {
    let comparisons = [
        ("==", ComparisonOperator::Eq),
        ("!=", ComparisonOperator::Neq),
        (">", ComparisonOperator::Gt),
        ("<", ComparisonOperator::Lt),
        (">=", ComparisonOperator::Gte),
        ("<=", ComparisonOperator::Lte),
    ];
    for (symbol, operator) in comparisons {
        assert!(ComparisonOperator::matches(symbol));
        let tokens = [symbol, "x"];
        let (found, rest) = ComparisonOperator::parse(&tokens).expect("operator");
        assert_eq!(*found, operator);
        assert_eq!(rest, &["x"]);
        assert_eq!(operator.fmt(), symbol);
    }
    let arithmetic = [
        ("+", ArithmeticOperator::Addition),
        ("-", ArithmeticOperator::Subtraction),
        ("*", ArithmeticOperator::Multiplication),
        ("/", ArithmeticOperator::Division),
        ("%", ArithmeticOperator::Modulo),
    ];
    for (symbol, operator) in arithmetic {
        assert!(ArithmeticOperator::matches(symbol));
        let tokens = [symbol];
        let (found, rest) = ArithmeticOperator::parse(&tokens).expect("operator");
        assert_eq!(*found, operator);
        assert!(rest.is_empty());
        assert_eq!(operator.fmt(), symbol);
    }
    let logicals = [("&&", LogicalOperator::And), ("||", LogicalOperator::Or)];
    for (symbol, operator) in logicals {
        assert!(LogicalOperator::matches(symbol));
        let tokens = [symbol];
        let (found, _) = LogicalOperator::parse(&tokens).expect("operator");
        assert_eq!(*found, operator);
        assert_eq!(operator.fmt(), symbol);
    }
}

#[test]
fn invalid_operator_names_the_token() {
    assert!(!ComparisonOperator::matches("="));
    assert!(!ArithmeticOperator::matches("++"));
    assert!(!LogicalOperator::matches("&"));
    assert_eq!(
        ComparisonOperator::parse(&["=", "x"]).err(),
        Some(ParseError::InvalidOperator("=".to_string()))
    );
    assert_eq!(
        ArithmeticOperator::parse(&["++"]).err(),
        Some(ParseError::InvalidOperator("++".to_string()))
    );
    assert_eq!(
        LogicalOperator::parse(&["and"]).err(),
        Some(ParseError::InvalidOperator("and".to_string()))
    );
    assert_eq!(ComparisonOperator::parse(&[]).err(), Some(ParseError::MissingTokens));
    assert_eq!(ArithmeticOperator::parse(&[]).err(), Some(ParseError::MissingTokens));
    assert_eq!(LogicalOperator::parse(&[]).err(), Some(ParseError::MissingTokens));
}

#[test]
fn else_and_elseif_follow_the_if_they_close() {
    let (nodes, rest) =
        Node::build_from_parts(&["if", "a", "return", "1", "elseif", "b", "return", "2", "else", "return", "3", "end", "end"])
            .expect("body");
    assert_eq!(
        nodes,
        vec![
            Node::If(If {
                condition: Condition::Value("a".to_string()),
                body: vec![Node::Return(Return { value: lit("1") })],
            }),
            Node::ElseIf(ElseIf {
                condition: Condition::Value("b".to_string()),
                body: vec![Node::Return(Return { value: lit("2") })],
            }),
            Node::Else(Else { body: vec![Node::Return(Return { value: lit("3") })] }),
            Node::End(End),
        ]
    );
    assert_eq!(rest, &["end"]);
}

#[test]
fn body_stops_before_a_terminator_of_its_own() {
    for terminator in ["end", "else", "elseif", "END", "Else"] {
        let tokens = ["return", "x", terminator, "y"];
        let (nodes, rest) = Node::build_from_parts(&tokens).expect("body");
        assert_eq!(nodes, vec![Node::Return(Return { value: var("x") })]);
        assert_eq!(rest, &[terminator, "y"]);
    }
    let (nodes, rest) = Node::build_from_parts(&["end"]).expect("body");
    assert!(nodes.is_empty());
    assert_eq!(rest, &["end"]);
}

#[test]
fn body_reads_the_terminator_behind_a_construct() {
    let (nodes, rest) = Node::build_body(&["end", "end"], true).expect("body");
    assert_eq!(nodes, vec![Node::End(End)]);
    assert_eq!(rest, &["end"]);
    let (nodes, rest) = Node::build_body(&["end", "end"], false).expect("body");
    assert!(nodes.is_empty());
    assert_eq!(rest, &["end", "end"]);
}

#[test]
fn body_of_no_tokens_is_empty() {
    let (nodes, rest) = Node::build_from_parts(&[]).expect("body");
    assert!(nodes.is_empty());
    assert!(rest.is_empty());
}

#[test]
fn unclosed_blocks_end_with_the_input() {
    assert_eq!(
        Node::new("start while x if y return z"),
        Ok(Node::Start(Start {
            body: vec![Node::Loop(Loop {
                loop_type: LoopType::While(Condition::Value("x".to_string())),
                body: vec![Node::If(If {
                    condition: Condition::Value("y".to_string()),
                    body: vec![Node::Return(Return { value: var("z") })],
                })],
            })],
        }))
    );
}

#[test]
fn while_loop_with_condition() {
    let (found, rest) = Loop::parse(&["while", "i", "<", "10", "return", "i", "end"]).expect("loop");
    assert_eq!(
        *found,
        Loop {
            loop_type: LoopType::While(compare(var("i"), ComparisonOperator::Lt, lit("10"))),
            body: vec![Node::Return(Return { value: var("i") })],
        }
    );
    assert_eq!(rest, &["end"]);
}

#[test]
fn for_loop_with_item_and_list() {
    let (found, rest) = Loop::parse(&["FOR", "x", "in", "xs", "return", "x", "end"]).expect("loop");
    assert_eq!(
        *found,
        Loop {
            loop_type: LoopType::For { item: "x".to_string(), list: "xs".to_string() },
            body: vec![Node::Return(Return { value: var("x") })],
        }
    );
    assert_eq!(rest, &["end"]);
    assert_eq!(Loop::parse(&["for", "x", "in"]).err(), Some(ParseError::MissingTokens));
    assert_eq!(Loop::parse(&["for", "x", "of", "xs"]).err(), Some(unexpected("in", "of")));
    assert_eq!(Loop::parse(&["loop"]).err(), Some(unexpected("for or while", "loop")));
    assert_eq!(Loop::parse(&[]).err(), Some(ParseError::MissingTokens));
}

#[test]
fn break_and_continue_answer_to_loop_tokens() {
    assert!(Break::matches("while"));
    assert!(Break::matches("For"));
    assert!(!Break::matches("break"));
    assert!(Continue::matches("for"));
    assert!(!Continue::matches("continue"));
    let (found, rest) = Break::parse(&["while", "x"]).expect("break");
    assert_eq!(*found, Break);
    assert_eq!(rest, &["x"]);
    let (found, rest) = Continue::parse(&["for"]).expect("continue");
    assert_eq!(*found, Continue);
    assert!(rest.is_empty());
    assert_eq!(Break::parse(&["break"]).err(), Some(unexpected("for or while", "break")));
    assert_eq!(Continue::parse(&["continue"]).err(), Some(unexpected("for or while", "continue")));
    assert_eq!(Break::parse(&[]).err(), Some(ParseError::MissingTokens));
    assert_eq!(Continue::parse(&[]).err(), Some(ParseError::MissingTokens));
    // a loop comes first among the statements
    let (node, _) = Node::parse_statement(&["while", "x"]).expect("statement");
    assert!(matches!(*node, Node::Loop(_)));
}

#[test]
fn comment_runs_to_the_closing_mark() {
    let (found, rest) = Comment::parse(&["--", "a", "b", "--", "return"]).expect("comment");
    assert_eq!(*found, Comment { value: "a b".to_string() });
    assert_eq!(rest, &["return"]);
    let (found, rest) = Comment::parse(&["//", "note", "--"]).expect("comment");
    assert_eq!(*found, Comment { value: "note".to_string() });
    assert!(rest.is_empty());
}

#[test]
fn comment_runs_to_the_end_of_input() {
    let (found, rest) = Comment::parse(&["//", "return", "x", "end"]).expect("comment");
    assert_eq!(*found, Comment { value: "return x end".to_string() });
    assert!(rest.is_empty());
    let (found, rest) = Comment::parse(&["--"]).expect("comment");
    assert_eq!(*found, Comment { value: String::new() });
    assert!(rest.is_empty());
    let (found, rest) = Comment::parse(&["--", "--", "x"]).expect("comment");
    assert_eq!(*found, Comment { value: String::new() });
    assert_eq!(rest, &["x"]);
    assert_eq!(Comment::parse(&["#"]).err(), Some(unexpected("--", "#")));
    assert_eq!(Comment::parse(&[]).err(), Some(ParseError::MissingTokens));
}

#[test]
fn end_is_one_token() {
    let (found, rest) = End::parse(&["End", "x"]).expect("end");
    assert_eq!(*found, End);
    assert_eq!(rest, &["x"]);
    assert_eq!(End::parse(&["fin"]).err(), Some(unexpected("end", "fin")));
    assert_eq!(End::parse(&[]).err(), Some(ParseError::MissingTokens));
}

#[test]
fn constructs_look_at_their_leading_token_again() {
    assert_eq!(Start::parse(&["if"]).err(), Some(unexpected("start", "if")));
    assert_eq!(If::parse(&["while", "x"]).err(), Some(unexpected("if", "while")));
    assert_eq!(ElseIf::parse(&["else", "x"]).err(), Some(unexpected("elseif", "else")));
    assert_eq!(Else::parse(&["elseif"]).err(), Some(unexpected("else", "elseif")));
    assert_eq!(Return::parse(&["x"]).err(), Some(unexpected("return", "x")));
    assert_eq!(Start::parse(&[]).err(), Some(ParseError::EmptyInput));
    assert_eq!(If::parse(&[]).err(), Some(ParseError::MissingTokens));
    assert_eq!(ElseIf::parse(&[]).err(), Some(ParseError::MissingTokens));
    assert_eq!(Else::parse(&[]).err(), Some(ParseError::MissingTokens));
    assert_eq!(Return::parse(&[]).err(), Some(ParseError::MissingTokens));
    assert_eq!(Node::parse_statement(&[]).err(), Some(ParseError::MissingTokens));
}

#[test]
fn keywords_match_in_any_case() {
    assert!(Start::matches("start") && Start::matches("START") && Start::matches("sTaRt"));
    assert!(If::matches("IF") && ElseIf::matches("ElseIf") && Else::matches("ELSE"));
    assert!(End::matches("END") && Return::matches("Return") && Loop::matches("WHILE"));
    assert!(!Start::matches("starts") && !If::matches("i") && !End::matches(""));
    assert!(Comment::matches("--") && Comment::matches("//") && !Comment::matches("---"));
}

#[test]
fn error_messages() {
    assert_eq!(ParseError::EmptyInput.message(), "no tokens to parse");
    assert_eq!(ParseError::MissingTokens.message(), "input ended in the middle of a construct");
    assert_eq!(unexpected("start", "foo").message(), "expected 'start' but found 'foo'");
    assert_eq!(ParseError::UnknownStatement("foo".to_string()).message(), "unknown statement: foo");
    assert_eq!(ParseError::InvalidOperator("=".to_string()).message(), "invalid operator: =");
    assert_eq!(ParseError::unexpected("a", "b"), unexpected("a", "b"));
    assert_eq!(ParseError::unknown_statement("x"), ParseError::UnknownStatement("x".to_string()));
    assert_eq!(ParseError::invalid_operator("x"), ParseError::InvalidOperator("x".to_string()));
}
