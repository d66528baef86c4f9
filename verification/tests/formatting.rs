use pseudocode::condition::Condition;
use pseudocode::expression::Expression;
use pseudocode::error::ParseError;
use pseudocode::formatter::{format_text, indent_string, IndentFormatter};
use pseudocode::node::{
    Assignment, Break, Comment, Continue, Else, ElseIf, End, FunctionCall, If, Loop, LoopType,
    Node, Return, Start,
};
use pseudocode::operator::{ArithmeticOperator, ComparisonOperator, LogicalOperator};
use pseudocode::parsing::Parsable;
use pseudocode::state::State;

const SAMPLE: &str = "start
         if x > 5
             -- test --
             assign y = x + 10
             while counter < 100
        assign counter = counter + 1
        if counter == 50
            return counter
        elseif counter > 75
            assign x = x - 1
        else
            assign y = y * 2
        end
             end
             return y
         else
             assign result = test(x, y, z)
             return !result
         end";

const SAMPLE_FORMATTED: &str = "start
        if x > 5
                // test //
                assign y = x + 10
                while counter < 100
                        assign counter = counter + 1
                        if counter == 50
                                return counter
                        elseif counter > 75
                                assign x = x - 1
                        else
                                assign y = y * 2
                        end
                end
                return y
        else
                assign result = test(x, y, z)
                return !result
        end
";

fn var(name: &str) -> Expression {
    Expression::Variable(name.to_string())
}

fn lit(value: &str) -> Expression {
    Expression::Literal(value.to_string())
}

fn format(input: &str) -> String {
    format_text(input).expect("program")
}

fn indentation(line: &str) -> usize {
    line.len() - line.trim_start_matches(' ').len()
}

#[test]
fn sample_program_is_laid_out() {
    assert_eq!(format(SAMPLE), SAMPLE_FORMATTED);
}

#[test]
fn formatted_sample_formats_to_itself() {
    let once = format(SAMPLE);
    let twice = format(&once);
    assert_eq!(once, twice);
    assert_eq!(Node::new(SAMPLE), Node::new(&once));
}

#[test]
fn round_trip_over_many_programs() {
    let programs = [
        "start",
        "start end",
        "START IF a RETURN 1 ELSEIF b RETURN 2 ELSE RETURN 3 END END",
        "start for x in xs f(x) end end",
        "start while a && b || !c assign i = i + 1 * 2 - 3 end end",
        "start -- one two -- // three // -- four",
        "start return ! a + b end",
        "start return !a + b end",
        "start return f(g(x), y + 1, !z) end",
        "start assign s = \"text\" assign n = -1.5e3 end",
        "start if a if b if c return 1 end end end end",
        "start f() g(1,2) h( 3 , 4 ) end",
        "start if f(x) > 0 return x end end",
        "start while x return y",
        "start function f a b",
    ];
    for program in programs {
        let once = format(program);
        let again = Node::new(&once).expect(program);
        assert_eq!(again.fmt(), once, "{:?}", program);
    }
}

#[test]
fn canonical_programs_are_read_back_as_they_were() {
    let programs = [
        SAMPLE,
        "start",
        "start end",
        "START IF a RETURN 1 ELSEIF b RETURN 2 ELSE RETURN 3 END END",
        "start for x in xs f(x) end end",
        "start while a && b || !c assign i = i + 1 * 2 - 3 end end",
        "start -- one two -- // three // -- four",
        "start return ! a + b end",
        "start return !a + b end",
        "start return f(g(x), y + 1, !z) end",
        "start assign s = \"text\" assign n = -1.5e3 end",
        "start if a if b if c return 1 end end end end",
        "start f() g(1,2) h( 3 , 4 ) end",
        "start if f(x) > 0 return x end end",
        "start function f a b",
        "start if !done return 1 end end",
        "start while x return y",
        "start if a",
        "start if a return 1 else",
        "start if a while b for x in xs",
        "start return a,b end",
        "start return k) end",
        "start assign s = \"a,b\" end",
        "start return !f(x) + 1 end",
        "start return !!x + 1 end",
        "start return !!f(!x) end",
        "start if !!done return 1 end end",
        "start !f(x) end",
        "start a,b(1) end",
        "start function !f x",
    ];
    for program in programs {
        let tree = Node::new(program).expect(program);
        assert!(tree.is_canonical(), "{:?}", program);
        assert_eq!(Node::new(&tree.fmt()), Ok(tree), "{:?}", program);
    }
}

#[test]
fn programs_that_are_not_canonical() {
    // a name with a parenthesis in it: its text cannot be read
    let tree = Node::new("start function f( x").expect("program");
    assert!(!tree.is_canonical());
    assert_eq!(tree.fmt(), "start\n        f((x)\n");
    assert!(Node::new(&tree.fmt()).is_err());
    // a call with two arguments as an argument: its text cannot be read
    let tree = Node::new("start function f g(a, b)").expect("program");
    assert!(!tree.is_canonical());
    assert_eq!(tree.fmt(), "start\n        f(g(a, b))\n");
    assert!(Node::new(&tree.fmt()).is_err());
    // a negated call of two arguments to the left of an operator: read back
    // as a negated sum, which is written the same
    let tree = Node::new("start return !f(x,y) + 1 end").expect("program");
    assert!(!tree.is_canonical());
    assert_eq!(tree.fmt(), "start\n        return ! f(x, y) + 1\n");
    let again = Node::new(&tree.fmt()).expect("program");
    assert_ne!(again, tree);
    assert_eq!(again.fmt(), tree.fmt());
    // only a program is canonical
    assert!(!Node::End(End).is_canonical());
    assert!(Node::End(End).is_canonical_statement(false));
    assert!(!Node::Break(Break).is_canonical_statement(false));
    assert!(!Node::Start(Start { body: vec![] }).is_canonical_statement(true));
}

#[test]
fn canonical_parts() {
    assert!(var("x").is_canonical());
    assert!(lit("12").is_canonical());
    assert!(!var("12").is_canonical());
    assert!(!lit("x").is_canonical());
    assert!(!var("").is_canonical());
    assert!(!var("!x").is_canonical());
    assert!(var("a,b").is_canonical() && !var("a,b").is_argument());
    assert!(var("k)").is_canonical() && !var("k)").is_argument());
    assert!(!var("f(").is_canonical());
    assert!(!var("a b").is_canonical());
    assert!(var("x").is_primary() && var("x").is_argument() && !var("x").begins_with_not());
    let call = Expression::FunctionCall { name: "f".to_string(), args: vec![var("a"), var("b")] };
    assert!(call.is_canonical() && call.is_primary() && !call.is_argument());
    let nested = Expression::FunctionCall { name: "g".to_string(), args: vec![call] };
    assert!(!nested.is_canonical());
    let not = Expression::Not(Box::new(var("x")));
    assert!(not.is_canonical() && not.is_primary() && not.begins_with_not());
    let sum = Expression::BinaryOp {
        left: Box::new(not),
        operator: Box::new(ArithmeticOperator::Addition),
        right: Box::new(lit("1")),
    };
    assert!(sum.is_canonical() && !sum.is_primary() && sum.begins_with_not());
    let comparison = Condition::ComparisonOperator {
        left: Box::new(sum),
        operator: Box::new(ComparisonOperator::Eq),
        right: Box::new(lit("1")),
    };
    assert!(!comparison.is_canonical());
    assert!(Condition::Value("ok".to_string()).is_canonical());
    assert!(Condition::NotValue(String::new()).is_canonical());
    assert!(Condition::NotValue("!x".to_string()).is_canonical());
    assert!(!Condition::NotValue("a b".to_string()).is_canonical());
    assert!(Comment { value: "a b".to_string() }.is_canonical());
    assert!(Comment { value: String::new() }.is_canonical());
    assert!(!Comment { value: "a  b".to_string() }.is_canonical());
    assert!(!Comment { value: " a".to_string() }.is_canonical());
    assert!(!Comment { value: "a -- b".to_string() }.is_canonical());
    assert!(Node::is_canonical_block(&vec![], false));
    assert!(!Node::is_canonical_block(&vec![Node::End(End)], true));
    let open_if = || Node::If(If { condition: Condition::Value("a".to_string()), body: vec![] });
    assert!(Node::is_canonical_block(&vec![open_if()], true));
    assert!(!Node::is_canonical_block(&vec![open_if()], false));
    assert!(Node::is_canonical_block(&vec![open_if(), Node::End(End)], false));
    assert!(!Node::is_canonical_block(&vec![open_if(), open_if()], true));
    assert!(!Node::is_canonical_block(&vec![open_if(), Node::End(End), Node::End(End)], true));
    assert!(Node::If(If { condition: Condition::Value("a".to_string()), body: vec![] }).is_opener());
    assert!(Node::End(End).is_closer());
}

#[test]
fn units_through_their_traits() {
    fn read<T: Parsable>(tokens: &[&str]) -> Option<Box<T>> {
        if tokens.is_empty() || !T::matches(tokens[0]) {
            return None;
        }
        T::parse(tokens).ok().map(|(unit, _)| unit)
    }
    fn write<T: IndentFormatter>(unit: &T) -> String {
        unit.fmt_indent(1)
    }
    assert_eq!(read::<End>(&["end"]), Some(Box::new(End)));
    assert_eq!(read::<End>(&["if"]), None);
    assert_eq!(read::<Return>(&["return", "x"]), Some(Box::new(Return { value: var("x") })));
    assert_eq!(read::<Expression>(&["x"]), Some(Box::new(var("x"))));
    assert_eq!(read::<ArithmeticOperator>(&["+"]), Some(Box::new(ArithmeticOperator::Addition)));
    assert_eq!(read::<Condition>(&["!x"]), Some(Box::new(Condition::NotValue("x".to_string()))));
    assert_eq!(write(&End), "        end\n");
    assert_eq!(write(&Node::End(End)), "        end\n");
    assert_eq!(write(&Return { value: var("x") }), "        return x\n");
}

#[test]
fn format_text_gives_the_text_or_the_error() {
    assert_eq!(format_text(SAMPLE), Ok(SAMPLE_FORMATTED.to_string()));
    assert_eq!(format_text(SAMPLE_FORMATTED), Ok(SAMPLE_FORMATTED.to_string()));
    assert_eq!(format_text(""), Err(ParseError::EmptyInput));
    assert_eq!(format_text("start foo"), Err(ParseError::UnknownStatement("foo".to_string())));
    assert_eq!(format_text("start assign x"), Err(ParseError::MissingTokens));
    assert_eq!(
        format_text("start if 5 return x"),
        Err(ParseError::InvalidOperator("return".to_string()))
    );
    assert_eq!(
        format_text("begin"),
        Err(ParseError::UnexpectedToken { expected: "start".to_string(), found: "begin".to_string() })
    );
}

#[test]
fn start_alone() {
    assert_eq!(format("start"), "start\n");
    assert_eq!(format("start end"), "start\n");
}

#[test]
fn twenty_levels_of_nesting() {
    let mut input = String::from("start ");
    for level in 0..20 {
        if level % 2 == 0 {
            input.push_str("if a ");
        } else {
            input.push_str("while b ");
        }
    }
    input.push_str("return x ");
    for _ in 0..20 {
        input.push_str("end ");
    }
    input.push_str("end");
    let text = format(&input);
    let lines: Vec<&str> = text.lines().collect();
    assert_eq!(lines.len(), 1 + 20 + 1 + 20);
    assert_eq!(lines[0], "start");
    for level in 0..20 {
        let header = lines[1 + level];
        assert_eq!(indentation(header), 8 * (level + 1));
        assert_eq!(header.trim_start(), if level % 2 == 0 { "if a" } else { "while b" });
        if level > 0 {
            assert!(indentation(header) > indentation(lines[level]));
        }
    }
    assert_eq!(lines[21], format!("{}return x", " ".repeat(8 * 21)));
    for closed in 0..20 {
        // the innermost block is closed first, one level above its body
        let line = lines[22 + closed];
        let body_level = 21 - closed;
        assert_eq!(line.trim_start(), "end");
        assert_eq!(indentation(line), 8 * (body_level - 1));
    }
    assert_eq!(format(&text), text);
}

#[test]
fn else_stands_one_level_above_the_body_it_closes() {
    let text = format("start if a return 1 else return 2 end end");
    assert_eq!(
        text,
        "start\n        if a\n                return 1\n        else\n                return 2\n        end\n"
    );
}

#[test]
fn expression_text() {
    let sum = Expression::BinaryOp {
        left: Box::new(var("a")),
        operator: Box::new(ArithmeticOperator::Addition),
        right: Box::new(Expression::BinaryOp {
            left: Box::new(var("b")),
            operator: Box::new(ArithmeticOperator::Multiplication),
            right: Box::new(lit("2")),
        }),
    };
    assert_eq!(sum.fmt(), "a + b * 2");
    assert_eq!(var("x").fmt(), "x");
    assert_eq!(lit("\"s\"").fmt(), "\"s\"");
    assert_eq!(Expression::Not(Box::new(var("x"))).fmt(), "!x");
    assert_eq!(Expression::Not(Box::new(lit("1"))).fmt(), "!1");
    assert_eq!(Expression::Not(Box::new(sum)).fmt(), "! a + b * 2");
    let call = Expression::FunctionCall { name: "f".to_string(), args: vec![var("x"), lit("1")] };
    assert_eq!(call.fmt(), "f(x, 1)");
    assert_eq!(Expression::Not(Box::new(call)).fmt(), "! f(x, 1)");
    let single = Expression::FunctionCall { name: "f".to_string(), args: vec![var("x")] };
    assert!(single.is_dense());
    assert_eq!(Expression::Not(Box::new(Expression::Not(Box::new(single)))).fmt(), "!!f(x)");
    assert_eq!(Expression::FunctionCall { name: "g".to_string(), args: vec![] }.fmt(), "g()");
    assert_eq!(Expression::FunctionCall { name: "g".to_string(), args: vec![var("a")] }.fmt(), "g(a)");
    assert!(var("x").is_simple() && lit("1").is_simple());
    assert!(!Expression::Not(Box::new(var("x"))).is_simple());
}

#[test]
fn condition_text() {
    let comparison = Condition::ComparisonOperator {
        left: Box::new(var("a")),
        operator: Box::new(ComparisonOperator::Neq),
        right: Box::new(lit("0")),
    };
    assert_eq!(comparison.fmt(), "a != 0");
    let chain = Condition::LogicalOperator {
        left: Box::new(comparison),
        operator: Box::new(LogicalOperator::Or),
        right: Box::new(Condition::NotValue("b".to_string())),
    };
    assert_eq!(chain.fmt(), "a != 0 || !b");
    assert_eq!(Condition::Value("ok".to_string()).fmt(), "ok");
}

#[test]
fn statements_at_an_indentation() {
    assert_eq!(End.fmt_indent(0), "end\n");
    assert_eq!(End.fmt_indent(1), "        end\n");
    assert_eq!(Break.fmt_indent(2), "                break\n");
    assert_eq!(Continue.fmt_indent(0), "continue\n");
    assert_eq!(Return { value: var("x") }.fmt_indent(1), "        return x\n");
    assert_eq!(
        Assignment { var: "y".to_string(), value: lit("1") }.fmt_indent(0),
        "assign y = 1\n"
    );
    assert_eq!(
        FunctionCall { name: "f".to_string(), args: vec![var("a"), var("b")] }.fmt_indent(1),
        "        f(a, b)\n"
    );
    assert_eq!(Comment { value: "a b".to_string() }.fmt_indent(0), "// a b //\n");
    assert_eq!(Comment { value: String::new() }.fmt_indent(0), "// //\n");
}

#[test]
fn constructs_at_an_indentation() {
    let body = || vec![Node::Return(Return { value: var("x") }), Node::End(End)];
    assert_eq!(Start { body: body() }.fmt_indent(0), "start\n        return x\n        end\n");
    assert_eq!(
        If { condition: Condition::Value("a".to_string()), body: body() }.fmt_indent(1),
        "        if a\n                return x\n                end\n"
    );
    assert_eq!(
        ElseIf { condition: Condition::Value("a".to_string()), body: vec![] }.fmt_indent(0),
        "elseif a\n"
    );
    assert_eq!(Else { body: body() }.fmt_indent(0), "else\n        return x\n        end\n");
    assert_eq!(
        Loop { loop_type: LoopType::While(Condition::Value("a".to_string())), body: vec![] }
            .fmt_indent(0),
        "while a\n"
    );
    assert_eq!(
        Loop {
            loop_type: LoopType::For { item: "x".to_string(), list: "xs".to_string() },
            body: body(),
        }
        .fmt_indent(0),
        "for x in xs\n        return x\n        end\n"
    );
    let node = Node::Else(Else { body: body() });
    assert_eq!(node.header(), "else");
    assert_eq!(node.fmt_indent(1), "        else\n                return x\n                end\n");
    assert_eq!(node.fmt(), "else\n        return x\n        end\n");
    assert!(node.is_compound());
    assert!(!Node::End(End).is_compound());
}

#[test]
fn indentation_is_eight_spaces_a_level() {
    assert_eq!(indent_string(0), "");
    assert_eq!(indent_string(1), " ".repeat(8));
    assert_eq!(indent_string(3), " ".repeat(24));
}

#[test]
fn comment_keeps_its_end_when_formatted() {
    let text = format("start -- note -- return x end");
    assert_eq!(text, "start\n        // note //\n        return x\n");
    assert_eq!(format(&text), text);
}

#[test]
fn get_output_parses_the_text() {
    assert_eq!(State::get_output("start end"), Node::new("start end"));
    assert_eq!(State::get_output("foo"), Node::new("foo"));
}

#[test]
fn random_programs_round_trip_where_canonical() {
    let words = [
        "start", "if", "elseif", "else", "end", "while", "for", "in", "assign", "return",
        "function", "--", "//", "x", "y", "1", "2.5", "+", "-", "*", "==", "<", "&&", "||", "!",
        "!x", "!!y", "f(x)", "f(x,", "y)", "g()", "h(", ")", "(", "=", "\"s\"", "a,b", "k)",
        "!f(x)", "END", "If",
    ];
    let mut seed: u64 = 0x2545_F491_4F6C_DD1D;
    let mut next = move |bound: usize| {
        seed ^= seed << 13;
        seed ^= seed >> 7;
        seed ^= seed << 17;
        (seed % bound as u64) as usize
    };
    let mut parsed = 0;
    let mut canonical = 0;
    for _ in 0..30000 {
        let mut text = String::from("start");
        for _ in 0..next(12) {
            text.push(' ');
            text.push_str(words[next(words.len())]);
        }
        if let Ok(tree) = Node::new(&text) {
            parsed += 1;
            let once = tree.fmt();
            if tree.is_canonical() {
                canonical += 1;
                assert_eq!(Node::new(&once), Ok(tree), "{:?}", text);
            }
        }
    }
    assert!(parsed > 300, "{}", parsed);
    assert!(canonical > 200, "{}", canonical);
}
