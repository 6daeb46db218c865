use toolbelt_a::comp::eval::{innermost_clause, outer_clause};
use toolbelt_a::comp::expand::{expand, CompError};
use toolbelt_a::comp::grammar::parse;
use toolbelt_a::comp::token::{lex, render_tokens};

// Each test below expands a comprehension, checks the text of the expansion,
// and then runs that same text, written out here as Rust, against the values
// that the comprehension is to give.

#[test]
fn test_comp_map_values() {
    assert_eq!(
        expand("x*x for x in [1,2,3]").unwrap(),
        "core::iter::IntoIterator::into_iter([1 , 2 , 3]).flat_map(move|x|{(true).then(|| x * x)})"
    );
    let result = core::iter::IntoIterator::into_iter([1 , 2 , 3]).flat_map(move|x|{(true).then(|| x * x)}).collect::<Vec<_>>();
    assert_eq!(result, [1, 4, 9]);

    assert_eq!(
        expand("(num * 2, String::from(\"hi\") + t) for (num, t) in [(4, \"hello\"),(5, \"world\"),(6, \"person\")]").unwrap(),
        "core::iter::IntoIterator::into_iter([(4 , \"hello\") , (5 , \"world\") , (6 , \"person\")]).flat_map(move|(num , t)|{(true).then(|| (num * 2 , String :: from (\"hi\") + t))})"
    );
    let result = core::iter::IntoIterator::into_iter([(4 , "hello") , (5 , "world") , (6 , "person")]).flat_map(move|(num , t)|{(true).then(|| (num * 2 , String :: from ("hi") + t))}).collect::<Vec<_>>();
    assert_eq!(
        result,
        [
            (8, String::from("hihello")),
            (10, String::from("hiworld")),
            (12, String::from("hiperson"))
        ]
    );

    assert_eq!(
        expand("num*8 for num in [2,3,4,5,7] if num % 2 == 0").unwrap(),
        "core::iter::IntoIterator::into_iter([2 , 3 , 4 , 5 , 7]).flat_map(move|num|{(true && (num % 2 == 0)).then(|| num * 8)})"
    );
    let result = core::iter::IntoIterator::into_iter([2 , 3 , 4 , 5 , 7]).flat_map(move|num|{(true && (num % 2 == 0)).then(|| num * 8)}).collect::<Vec<_>>();
    assert_eq!(result, [16, 32]);
}

#[test]
fn test_comp_filters_values() {
    assert_eq!(
        expand("num*8 for num in [2,3,4,5,7] if num % 2 == 0").unwrap(),
        "core::iter::IntoIterator::into_iter([2 , 3 , 4 , 5 , 7]).flat_map(move|num|{(true && (num % 2 == 0)).then(|| num * 8)})"
    );
    let result = core::iter::IntoIterator::into_iter([2 , 3 , 4 , 5 , 7]).flat_map(move|num|{(true && (num % 2 == 0)).then(|| num * 8)}).collect::<Vec<_>>();
    assert_eq!(result, [16, 32]);

    assert_eq!(
        expand("x for x in [\"hello\", \"world\", \"bye\", \"bye\"] if x.chars().count() > 4").unwrap(),
        "core::iter::IntoIterator::into_iter([\"hello\" , \"world\" , \"bye\" , \"bye\"]).flat_map(move|x|{(true && (x . chars () . count () > 4)).then(|| x)})"
    );
    let result = core::iter::IntoIterator::into_iter(["hello" , "world" , "bye" , "bye"]).flat_map(move|x|{(true && (x . chars () . count () > 4)).then(|| x)}).collect::<Vec<&str>>();
    assert_eq!(result, ["hello", "world"]);
}

#[test]
fn test_comp_multiple_for_if_clauses() {
    assert_eq!(
        expand("(x, y) for x in [1,2,3] for y in [6,7,8]").unwrap(),
        "core::iter::IntoIterator::into_iter([1 , 2 , 3]).filter_map(move|x|{(true).then(|| core::iter::IntoIterator::into_iter([6 , 7 , 8]).flat_map(move|y|{(true).then(|| (x , y))}))}).flatten()"
    );
    let result = core::iter::IntoIterator::into_iter([1 , 2 , 3]).filter_map(move|x|{(true).then(|| core::iter::IntoIterator::into_iter([6 , 7 , 8]).flat_map(move|y|{(true).then(|| (x , y))}))}).flatten().collect::<Vec<(_, _)>>();

    assert_eq!(
        result,
        [
            (1, 6),
            (1, 7),
            (1, 8),
            (2, 6),
            (2, 7),
            (2, 8),
            (3, 6),
            (3, 7),
            (3, 8)
        ]
    )
}

#[test]
fn eager_clauses_give_the_comprehension_values() {
    let result = innermost_clause(&vec![1, 2, 3], |_| true, |x| x * x);
    assert_eq!(result, [1, 4, 9]);

    let result = innermost_clause(
        &vec![(4, "hello"), (5, "world"), (6, "person")],
        |_| true,
        |&(num, t)| (num * 2, String::from("hi") + t),
    );
    assert_eq!(
        result,
        [
            (8, String::from("hihello")),
            (10, String::from("hiworld")),
            (12, String::from("hiperson"))
        ]
    );

    let result = innermost_clause(&vec![2, 3, 4, 5, 7], |num| num % 2 == 0, |num| num * 8);
    assert_eq!(result, [16, 32]);

    let result = innermost_clause(
        &vec!["hello", "world", "bye", "bye"],
        |x| x.chars().count() > 4,
        |x| *x,
    );
    assert_eq!(result, ["hello", "world"]);

    let result = outer_clause(
        &vec![1, 2, 3],
        |_| true,
        |&x| innermost_clause(&vec![6, 7, 8], |_| true, |&y| (x, y)),
    );
    assert_eq!(
        result,
        [(1, 6), (1, 7), (1, 8), (2, 6), (2, 7), (2, 8), (3, 6), (3, 7), (3, 8)]
    );
}

#[test]
fn expand_single_clause() {
    let out = expand("x*x for x in [1,2,3]").unwrap();
    assert_eq!(
        out,
        "core::iter::IntoIterator::into_iter([1 , 2 , 3]).flat_map(move|x|{(true).then(|| x * x)})"
    );
}

#[test]
fn expand_conditions_are_conjoined() {
    let out = expand("num*8 for num in v if num % 2 == 0 if num > 1").unwrap();
    assert_eq!(
        out,
        "core::iter::IntoIterator::into_iter(v).flat_map(move|num|{(true && (num % 2 == 0) && (num > 1)).then(|| num * 8)})"
    );
}

#[test]
fn expand_nests_clauses_outermost_first() {
    let out = expand("(x, y) for x in a for y in b").unwrap();
    assert_eq!(
        out,
        "core::iter::IntoIterator::into_iter(a).filter_map(move|x|{(true).then(|| core::iter::IntoIterator::into_iter(b).flat_map(move|y|{(true).then(|| (x , y))}))}).flatten()"
    );
}

#[test]
fn expand_pattern_with_tuple() {
    let out = expand("n for (n, t) in pairs if t").unwrap();
    assert_eq!(
        out,
        "core::iter::IntoIterator::into_iter(pairs).flat_map(move|(n , t)|{(true && (t)).then(|| n)})"
    );
}

#[test]
fn expand_refuses_missing_clause() {
    assert_eq!(expand("x"), Err(CompError::Grammar));
    assert_eq!(expand("x for x"), Err(CompError::Grammar));
    assert_eq!(expand("for x in v"), Err(CompError::Grammar));
    assert_eq!(expand("x for in v"), Err(CompError::Grammar));
    assert_eq!(expand("x for x in"), Err(CompError::Grammar));
    assert_eq!(expand("x for x in v if"), Err(CompError::Grammar));
    assert_eq!(expand("x for x in v if c if"), Err(CompError::Grammar));
    assert_eq!(expand("x for x in v for"), Err(CompError::Grammar));
    assert_eq!(expand("x for x in v y"), Err(CompError::Grammar));
    assert_eq!(expand("x for x in v if in"), Err(CompError::Grammar));
}

#[test]
fn expand_refuses_expressions_that_syn_does_not_accept() {
    assert_eq!(expand("x + for x in v"), Err(CompError::Grammar));
    assert_eq!(expand("x for x in v +"), Err(CompError::Grammar));
    assert_eq!(expand("x for x in v if c +"), Err(CompError::Grammar));
}

#[test]
fn expand_refuses_patterns_that_are_not_rust() {
    assert_eq!(expand("x for 1 + 2 in v"), Err(CompError::Syntax));
}

#[test]
fn expand_lets_syn_decide_where_expressions_end() {
    assert_eq!(
        expand("x for x in if c { a } else { b }").unwrap(),
        "core::iter::IntoIterator::into_iter(if c { a } else { b }).flat_map(move|x|{(true).then(|| x)})"
    );
    assert_eq!(
        expand("x for x in v if if c { p } else { q }").unwrap(),
        "core::iter::IntoIterator::into_iter(v).flat_map(move|x|{(true && (if c { p } else { q })).then(|| x)})"
    );
    assert_eq!(
        expand("for a in b {} for x in v").unwrap(),
        "core::iter::IntoIterator::into_iter(v).flat_map(move|x|{(true).then(|| for a in b { })})"
    );
}

#[test]
fn expand_original_inputs() {
    assert_eq!(
        expand("x*x for x in [1,2,3]").unwrap(),
        "core::iter::IntoIterator::into_iter([1 , 2 , 3]).flat_map(move|x|{(true).then(|| x * x)})"
    );
    assert_eq!(
        expand("(num * 2, String::from(\"hi\") + t) for (num, t) in [(4, \"hello\"),(5, \"world\"),(6, \"person\")]").unwrap(),
        "core::iter::IntoIterator::into_iter([(4 , \"hello\") , (5 , \"world\") , (6 , \"person\")]).flat_map(move|(num , t)|{(true).then(|| (num * 2 , String :: from (\"hi\") + t))})"
    );
    assert_eq!(
        expand("num*8 for num in [2,3,4,5,7] if num % 2 == 0").unwrap(),
        "core::iter::IntoIterator::into_iter([2 , 3 , 4 , 5 , 7]).flat_map(move|num|{(true && (num % 2 == 0)).then(|| num * 8)})"
    );
    assert_eq!(
        expand("x for x in [\"hello\", \"world\", \"bye\", \"bye\"] if x.chars().count() > 4").unwrap(),
        "core::iter::IntoIterator::into_iter([\"hello\" , \"world\" , \"bye\" , \"bye\"]).flat_map(move|x|{(true && (x . chars () . count () > 4)).then(|| x)})"
    );
    assert_eq!(
        expand("(x, y) for x in [1,2,3] for y in [6,7,8]").unwrap(),
        "core::iter::IntoIterator::into_iter([1 , 2 , 3]).filter_map(move|x|{(true).then(|| core::iter::IntoIterator::into_iter([6 , 7 , 8]).flat_map(move|y|{(true).then(|| (x , y))}))}).flatten()"
    );
    assert_eq!(
        expand("x + 1 for x in [1,2,3,4]").unwrap(),
        "core::iter::IntoIterator::into_iter([1 , 2 , 3 , 4]).flat_map(move|x|{(true).then(|| x + 1)})"
    );
}

#[test]
fn expand_refuses_text_that_is_not_tokens() {
    assert_eq!(expand("x for x in \"open"), Err(CompError::Lex));
    assert_eq!(expand("x for x in (v"), Err(CompError::Lex));
}

#[test]
fn comp_error_messages() {
    assert_eq!(CompError::Lex.message(), "comprehension: the input is not Rust tokens");
    assert_eq!(
        CompError::Grammar.message(),
        "comprehension: expected `mapping for pattern in sequence (if condition)*`"
    );
}

#[test]
fn innermost_clause_of_nothing_is_empty() {
    let result: Vec<i32> = innermost_clause(&Vec::<i32>::new(), |_| true, |x| *x);
    assert!(result.is_empty());
}

#[test]
fn outer_clause_skips_refused_elements() {
    let result = outer_clause(&vec![1, 2, 3], |x| *x != 2, |&x| vec![x; x as usize]);
    assert_eq!(result, [1, 3, 3, 3]);
}

#[test]
fn comp_doc_example() {
    // comp![x + 1 for x in [1,2,3,4]]
    let result = innermost_clause(&vec![1, 2, 3, 4], |_| true, |x| x + 1);
    assert_eq!(result, [2, 3, 4, 5]);
}

#[test]
fn parse_splits_at_top_level_keywords() {
    let tokens = lex("f(a, b) for (a, b) in pairs(x) if a < b if b > 0 for c in cs").unwrap();
    let c = parse(&tokens).unwrap();
    assert_eq!(render_tokens(&c.mapping), "f (a , b)");
    assert_eq!(c.clauses.len(), 2);
    assert_eq!(render_tokens(&c.clauses[0].pattern), "(a , b)");
    assert_eq!(render_tokens(&c.clauses[0].sequence), "pairs (x)");
    assert_eq!(c.clauses[0].conditions.len(), 2);
    assert_eq!(render_tokens(&c.clauses[0].conditions[0]), "a < b");
    assert_eq!(render_tokens(&c.clauses[0].conditions[1]), "b > 0");
    assert_eq!(render_tokens(&c.clauses[1].pattern), "c");
    assert_eq!(render_tokens(&c.clauses[1].sequence), "cs");
    assert!(c.clauses[1].conditions.is_empty());
}

#[test]
fn render_joins_joint_punctuation() {
    let tokens = lex("a == b && 'x' != c::d").unwrap();
    assert_eq!(render_tokens(&tokens), "a == b && 'x' != c :: d");
}

#[test]
fn parse_clause_needs_a_clause() {
    let tokens = lex("x in v").unwrap();
    assert!(toolbelt_a::comp::grammar::parse_clause(&tokens, 0).is_none());
    let tokens = lex("for x v").unwrap();
    assert!(toolbelt_a::comp::grammar::parse_clause(&tokens, 0).is_none());
    let tokens = lex("for in v").unwrap();
    assert!(toolbelt_a::comp::grammar::parse_clause(&tokens, 0).is_none());
    let tokens = lex("for x in v if c for y in w").unwrap();
    let (clause, next) = toolbelt_a::comp::grammar::parse_clause(&tokens, 0).unwrap();
    assert_eq!(next, 6);
    assert_eq!(render_tokens(&clause.sequence), "v");
    assert!(toolbelt_a::comp::grammar::parse_clause(&tokens, 6).is_some());
    assert!(toolbelt_a::comp::grammar::parse_clause(&tokens, tokens.len()).is_none());
}
