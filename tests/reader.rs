use std::collections::HashMap as HM;
use std::ops::Add;

use lisp_reader::{
    generate_stacks, is_terminal, parse_integer, parse_source, parse_text, str, tokenize,
    tokenize_with, valueize, valueize_all, Delimiters, LispVal, SourceError, Token,
};
use lisp_reader::LispVal::{Atom, BeginExpr, EndExpr, Whitespace, Wildcard};
use lisp_reader::Token::{Char, Str};

fn concat_texts(ts: &[Token]) -> String {
    let mut out = String::new();
    for t in ts {
        match t {
            Char(c) => out.push(*c),
            Str(s) => out.push_str(s),
        }
    }
    out
}

#[test]
fn test_is_terminal() {
    assert!(is_terminal('('));
    assert!(is_terminal(')'));
    assert!(is_terminal(' '));
    assert!(is_terminal('\n'));
    assert_eq!(false, is_terminal('a'));
    assert_eq!(false, is_terminal('.'));
}

#[test]
fn test_tokenize() {
    assert_eq!(
        tokenize(str("(+ 1 2)")),
        vec![
            Char('('),
            Str(str("+")),
            Char(' '),
            Str(str("1")),
            Char(' '),
            Str(str("2")),
            Char(')')
        ]
    )
}

#[test]
fn test_valueize_all() {
    assert_eq!(
        valueize_all(tokenize(str("(+ 1 2)"))),
        vec![
            BeginExpr,
            Atom(str("+")),
            Whitespace,
            Atom(str("1")),
            Whitespace,
            Atom(str("2")),
            EndExpr
        ]
    )
}

#[test]
fn test_func_map_idea() {
    let mut functions = HM::<&str, fn(i64, i64) -> i64>::new();
    functions.insert("+", i64::add);
    let add = functions.get("+").unwrap();
    assert_eq!(3, add(1, 2));
}

#[test]
fn tokens_spell_the_input() {
    for input in ["(+ 1 2)", "(define (sq x) (* x x))\n", "  ((a))\n\nb", "abc", "(", "x\ty ü(z)"] {
        assert_eq!(concat_texts(&tokenize(str(input))), input);
    }
}

#[test]
fn runs_are_maximal_and_delimiters_stand_alone() {
    assert_eq!(tokenize(str("abc")), vec![Str(str("abc"))]);
    assert_eq!(
        tokenize(str("ab)(cd")),
        vec![Str(str("ab")), Char(')'), Char('('), Str(str("cd"))]
    );
    assert_eq!(
        tokenize(str("  x\n")),
        vec![Char(' '), Char(' '), Str(str("x")), Char('\n')]
    );
    assert_eq!(tokenize(str("a\tb")), vec![Str(str("a\tb"))]);
}

#[test]
fn classifying_twice_gives_equal_values() {
    for t in [Char('('), Char(')'), Char(' '), Char('x'), Str(str("foo")), Str(str("-7"))] {
        assert_eq!(valueize(t.clone()), valueize(t));
    }
}

#[test]
fn delimiter_characters_classify_to_markers() {
    assert_eq!(valueize(Char('(')), BeginExpr);
    assert_eq!(valueize(Char(')')), EndExpr);
    assert_eq!(valueize(Char(' ')), Whitespace);
    assert_eq!(valueize(Char('\n')), Whitespace);
    assert_eq!(valueize(Char('x')), Wildcard);
    assert_eq!(valueize(Str(str("x"))), Atom(str("x")));
}

#[test]
fn numeric_and_symbolic_atoms() {
    let n = valueize(Str(str("42")));
    assert_eq!(n, Atom(str("42")));
    assert_eq!(n.numeric_value(), Some(42));
    assert!(n.is_numeric());
    let plus = valueize(Str(str("+")));
    assert_eq!(plus, Atom(str("+")));
    assert_eq!(plus.numeric_value(), None);
    assert!(!plus.is_numeric());
    let neg = valueize(Str(str("-7")));
    assert_eq!(neg.numeric_value(), Some(-7));
    assert_eq!(BeginExpr.numeric_value(), None);
    assert!(!Whitespace.is_numeric());
}

#[test]
fn integer_grammar_edges() {
    assert_eq!(parse_integer(""), None);
    assert_eq!(parse_integer("-"), None);
    assert_eq!(parse_integer("+"), None);
    assert_eq!(parse_integer("+5"), Some(5));
    assert_eq!(parse_integer("007"), Some(7));
    assert_eq!(parse_integer("0"), Some(0));
    assert_eq!(parse_integer("-0"), Some(0));
    assert_eq!(parse_integer("12a"), None);
    assert_eq!(parse_integer("a12"), None);
    assert_eq!(parse_integer("1-2"), None);
    assert_eq!(parse_integer("--1"), None);
    assert_eq!(parse_integer("9223372036854775807"), Some(i64::MAX));
    assert_eq!(parse_integer("-9223372036854775808"), Some(i64::MIN));
    assert_eq!(parse_integer("9223372036854775808"), None);
    assert_eq!(parse_integer("-9223372036854775809"), None);
    assert_eq!(parse_integer("123456789012345678901234567890"), None);
    assert_eq!(parse_integer("99999999999999999999x"), None);
}

#[test]
fn grouping_example() {
    let values = valueize_all(tokenize(str("(+ 1 2)")));
    let (head, groups) = generate_stacks(values);
    assert_eq!(head, Some(Atom(str("+"))));
    assert_eq!(groups, vec![vec![Atom(str("1")), Atom(str("2"))]]);
}

#[test]
fn only_the_first_head_is_captured() {
    let (head, groups) = parse_text(str("(a (b c))"));
    assert_eq!(head, Some(Atom(str("a"))));
    assert_eq!(groups, vec![vec![Atom(str("b")), Atom(str("c"))], vec![]]);
}

#[test]
fn unclosed_group_is_dropped() {
    let (head, groups) = parse_text(str("(f 1 2"));
    assert_eq!(head, Some(Atom(str("f"))));
    assert!(groups.is_empty());
}

#[test]
fn atoms_without_open_marker_are_arguments() {
    let (head, groups) = parse_text(str("x y)"));
    assert_eq!(head, None);
    assert_eq!(groups, vec![vec![Atom(str("x")), Atom(str("y"))]]);
}

#[test]
fn empty_input() {
    assert_eq!(tokenize(str("")), vec![]);
    assert_eq!(valueize_all(vec![]), vec![]);
    let (head, groups) = generate_stacks(vec![]);
    assert_eq!(head, None);
    assert!(groups.is_empty());
    assert_eq!(parse_text(str("")), (None, vec![]));
}

#[test]
fn absent_source_is_reported() {
    assert_eq!(parse_source(None), Err(SourceError::SourceUnavailable));
}

#[test]
fn present_source_is_parsed() {
    let r = parse_source(Some(str("(+ 1 2)\n")));
    assert_eq!(
        r,
        Ok((Some(Atom(str("+"))), vec![vec![Atom(str("1")), Atom(str("2"))]]))
    );
}

#[test]
fn str_copies_its_argument() {
    assert_eq!(str("(+ 1 2)"), String::from("(+ 1 2)"));
    let v: LispVal = Atom(str("q"));
    assert_eq!(v, Atom(String::from("q")));
}

#[test]
fn tab_is_a_delimiter_only_when_asked_for() {
    assert!(!Delimiters::standard().contains('\t'));
    assert!(Delimiters::with_tab().contains('\t'));
    assert!(Delimiters::with_tab().contains('('));
    assert!(!Delimiters::with_tab().contains('a'));
    assert_eq!(
        tokenize_with(str("a\tb"), Delimiters::standard()),
        vec![Str(str("a\tb"))]
    );
    assert_eq!(
        tokenize_with(str("(a\tb)"), Delimiters::with_tab()),
        vec![Char('('), Str(str("a")), Char('\t'), Str(str("b")), Char(')')]
    );
    assert_eq!(valueize(Char('\t')), Wildcard);
    assert_eq!(concat_texts(&tokenize_with(str("\t(x\t\ty)\t"), Delimiters::with_tab())), "\t(x\t\ty)\t");
}
