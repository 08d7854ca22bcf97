use qbscript::parser::expr;
use qbscript::Elem;
use qbscript::Env;
use qbscript::EvalError;

const FUEL: u64 = 1_000_000;

fn run(program: &str) -> String {
    let chars: Vec<char> = program.chars().collect();
    let mut env = Env::new();
    let mut pos: usize = 0;
    let mut out = String::new();
    loop {
        match expr(&chars, pos) {
            Some((node, next)) => {
                pos = next;
                out = node.eval(&mut env, FUEL).unwrap().to_text();
            }
            None => panic!("parse failure at {}", pos),
        }
        if pos == chars.len() {
            return out;
        }
    }
}

fn eval_once(text: &str, env: &mut Env) -> Result<Elem, EvalError> {
    let chars: Vec<char> = text.chars().collect();
    let (node, _) = expr(&chars, 0).expect("parse failure");
    node.eval(env, FUEL)
}

#[test]
fn parsing() {
    assert_eq!(
        run("(cons #A [B C :D \"EFG\" 1 2 3])"),
        "[A B C :D \"EFG\" 1 2 3]"
    );
}

#[test]
fn things() {
    assert_eq!(
        run("(value (head [:KEY #VALUE]))"),
        "(value (head [:KEY #VALUE]))"
    );
}

#[test]
fn numbers() {
    let mut env = Env::new();
    let first = eval_once("(let second (car (cdr x)))", &mut env).unwrap();
    assert_eq!(first.to_text(), "second");
    let second = eval_once("(second A B C)", &mut env).unwrap();
    assert_eq!(second.to_text(), "((car (cdr x)) A B C)");
}

#[test]
fn cond_test() {
    assert_eq!(
        run("(cond [(le (add 3 2) 5) \"3 + 2 <= 5\"] [T \"Catch-all\"])"),
        "\"3 + 2 <= 5\""
    );
}

#[test]
fn fun_test() {
    let mut env = Env::new();
    let first = eval_once(
        "(let tri (fun [n] (if (gt n 0) (add n (tri (add n -1))) (0))))",
        &mut env,
    )
    .unwrap();
    assert_eq!(first.to_text(), "tri");
    let second = eval_once("(tri 5)", &mut env).unwrap();
    assert_eq!(second.to_text(), "15");
}

#[test]
fn round_trip_of_literals() {
    for text in ["42", "-3", "\"abc\"", "sym"] {
        let chars: Vec<char> = text.chars().collect();
        let (node, next) = expr(&chars, 0).expect("parse failure");
        assert_eq!(next, chars.len());
        assert_eq!(node.to_text(), text);
    }
}

#[test]
fn list_self_evaluation() {
    let mut env = Env::new();
    let value = eval_once("[a [b 2] \"s\" #q]", &mut env).unwrap();
    assert_eq!(value.to_text(), "[a [b 2] \"s\" #q]");
}

#[test]
fn quote_bypass() {
    let mut env = Env::new();
    eval_once("(let x 5)", &mut env).unwrap();
    let quoted = eval_once("#x", &mut env).unwrap();
    assert_eq!(quoted.to_text(), "x");
    let plain = eval_once("x", &mut env).unwrap();
    assert_eq!(plain.to_text(), "5");
}

#[test]
fn truthiness_asymmetry() {
    let mut env = Env::new();
    let negated = eval_once("(not [])", &mut env).unwrap();
    assert_eq!(negated.to_text(), "#t");
    let picked = eval_once("(if [] \"T\" \"F\")", &mut env).unwrap();
    assert_eq!(picked.to_text(), "\"F\"");
    let non_empty = eval_once("(not [1])", &mut env).unwrap();
    assert_eq!(non_empty.to_text(), "[]");
}

#[test]
fn arithmetic() {
    let mut env = Env::new();
    assert_eq!(eval_once("(add 3 2)", &mut env).unwrap().to_text(), "5");
    assert_eq!(eval_once("(add)", &mut env).unwrap().to_text(), "0");
    assert_eq!(
        eval_once("(add 1 \"x\" 2)", &mut env).unwrap().to_text(),
        "3"
    );
}

#[test]
fn head_and_tail_of_non_sequences() {
    let mut env = Env::new();
    assert_eq!(eval_once("(head 5)", &mut env).unwrap().to_text(), "[]");
    assert_eq!(eval_once("(head #a)", &mut env).unwrap().to_text(), "[]");
    assert_eq!(eval_once("(tail 5)", &mut env).unwrap().to_text(), "[]");
    assert_eq!(eval_once("(head [])", &mut env).unwrap().to_text(), "[]");
}

#[test]
fn add_ignores_its_own_binding() {
    let mut env = Env::new();
    eval_once("(let add 3)", &mut env).unwrap();
    assert_eq!(eval_once("(add 1 2)", &mut env).unwrap().to_text(), "3");
}

#[test]
fn cons_structural_laws() {
    let mut env = Env::new();
    let head = eval_once("(head (cons #a [b c]))", &mut env).unwrap();
    assert_eq!(head.to_text(), "a");
    let tail = eval_once("(tail (cons #a [b c]))", &mut env).unwrap();
    assert_eq!(tail.to_text(), "[b c]");
}

#[test]
fn recursive_procedures_are_deterministic() {
    let program = "(let dec (fun [n] (add n -1))) \
                   (let iota (fun [n] (if (gt n 0) (append (iota (dec n)) n) n))) \
                   (iota 10)";
    let first = run(program);
    let second = run(program);
    assert_eq!(first, second);
    assert_eq!(first, "[0 1 2 3 4 5 6 7 8 9 10]");
}

#[test]
fn binding_isolation() {
    let mut env = Env::new();
    eval_once("(let f (fun [n] (let y 1)))", &mut env).unwrap();
    eval_once("(f 0)", &mut env).unwrap();
    let y = eval_once("y", &mut env).unwrap();
    assert_eq!(y.to_text(), "y");
}

#[test]
fn equality_quirks() {
    let mut env = Env::new();
    assert_eq!(eval_once("(eq 1 1)", &mut env).unwrap().to_text(), "#t");
    assert_eq!(eval_once("(eq #a a)", &mut env).unwrap().to_text(), "#t");
    assert_eq!(eval_once("(ne 1 2)", &mut env).unwrap().to_text(), "#t");
    assert_eq!(
        eval_once("(eq [1] [1])", &mut env).unwrap().to_text(),
        "[]"
    );
    assert_eq!(
        eval_once("(ne [1] [1])", &mut env).unwrap().to_text(),
        "[]"
    );
}

#[test]
fn arity_faults() {
    let mut env = Env::new();
    assert!(matches!(
        eval_once("(cons 1)", &mut env),
        Err(EvalError::Arity)
    ));
    assert!(matches!(
        eval_once("((fun [a b] a) 1)", &mut env),
        Err(EvalError::Arity)
    ));
}

#[test]
fn depth_fault_on_unbounded_recursion() {
    let mut env = Env::new();
    eval_once("(let loopy (fun [n] (loopy n)))", &mut env).unwrap();
    let chars: Vec<char> = "(loopy 1)".chars().collect();
    let (node, _) = expr(&chars, 0).expect("parse failure");
    assert!(matches!(node.eval(&mut env, 1000), Err(EvalError::Depth)));
}

#[test]
fn parse_failures() {
    for text in ["-", "1-2", "9223372036854775808", ")", ""] {
        let chars: Vec<char> = text.chars().collect();
        assert!(expr(&chars, 0).is_none(), "expected failure on {:?}", text);
    }
    let chars: Vec<char> = "-9223372036854775808".chars().collect();
    let (node, _) = expr(&chars, 0).expect("parse failure");
    assert_eq!(node.to_text(), "-9223372036854775808");
}

#[test]
fn string_edge_cases() {
    let mut env = Env::new();
    let empty = eval_once("\"\"", &mut env).unwrap();
    assert_eq!(empty.to_text(), "\"\"");
    assert!(matches!(empty, Elem::Atom(qbscript::Atom::Symbol(_))));
    let unterminated = eval_once("\"ab", &mut env).unwrap();
    assert_eq!(unterminated.to_text(), "\"ab");
}

#[test]
fn rebinding_overwrites() {
    let mut env = Env::new();
    eval_once("(let x 1)", &mut env).unwrap();
    eval_once("(let x 2)", &mut env).unwrap();
    assert!(env.contains(&"x".to_string()));
    assert!(!env.contains(&"y".to_string()));
    assert_eq!(eval_once("x", &mut env).unwrap().to_text(), "2");
}

#[test]
fn environment_snapshot_isolation() {
    let mut env = Env::new();
    eval_once("(let n 1)", &mut env).unwrap();
    let copy = env.duplicate();
    eval_once("(let n 2)", &mut env).unwrap();
    let mut copy = copy;
    let chars: Vec<char> = "n".chars().collect();
    let (node, _) = expr(&chars, 0).unwrap();
    assert_eq!(node.eval(&mut copy, FUEL).unwrap().to_text(), "1");
}

#[test]
fn character_classes() {
    assert!(qbscript::parser::is_atom('x'));
    assert!(qbscript::parser::is_atom('#'));
    assert!(!qbscript::parser::is_atom('('));
    assert!(!qbscript::parser::is_atom(' '));
    assert!(qbscript::parser::is_string('x'));
    assert!(!qbscript::parser::is_string('"'));
    assert!(qbscript::parser::is_number('0'));
    assert!(qbscript::parser::is_number('-'));
    assert!(!qbscript::parser::is_number('x'));
    assert!(!qbscript::parser::is_atom('\u{00A0}'));
    assert!(!qbscript::parser::is_atom('\u{2028}'));
}

#[test]
fn unicode_whitespace_breaks_symbols() {
    let chars: Vec<char> = "a\u{00A0}b".chars().collect();
    let (node, next) = expr(&chars, 0).expect("parse failure");
    assert_eq!(node.to_text(), "a");
    assert_eq!(next, 1);
    assert!(expr(&chars, next).is_none());
}

#[test]
fn session_like_the_driver() {
    let program = "\n(let x 7)\n(let double (fun [n] (add n n)))\n(double x)\n";
    assert_eq!(run(program), "14");
    let reverse = "(let reverse (fun [l] (if (not l) () (append (reverse (tail l)) (head l))))) \
                   (reverse [A B C D E F G])";
    assert_eq!(run(reverse), "[G F E D C B A]");
}
